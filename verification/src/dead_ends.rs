use vstd::prelude::*;
use crate::expr::Expr;
use crate::grammar::{
    block_at, class_at, declaration_at, derives, distinct, for_at, for_loop, function_at, if_at,
    is_at, lemma_named_at, listed, methods_at, named, operation_of, sequence_at, statement_at,
    variable_at, while_at, ASSIGNMENT, CALL, OR, PRIMARY, UNARY,
};
use crate::stmt::Stmt;
use crate::token::Token;
use crate::token_type::TokenType;
use crate::unique::{
    carries_on, goes_on, inner_of, left_of, lemma_assigned, lemma_last_listed, lemma_levels,
    lemma_link, lemma_listed_span, lemma_listed_unique, lemma_next_link, lemma_next_listed,
    lemma_next_operand, lemma_operands, lemma_property, lemma_set, lemma_span, lemma_unique,
    lemma_variable, lemma_whole, operator_at, starts_primary,
};
use crate::unique_statements::{
    lemma_declaration_span, lemma_for_kind, lemma_for_parts, lemma_function_parts,
    lemma_function_span, lemma_if_parts, lemma_methods_unique, lemma_names_unique,
    lemma_sequence_unique, lemma_statement_span, lemma_statement_unique, lemma_variable_unique,
    lemma_while_parts,
};

verus! {

/// No expression read at the level from `start` on is whole: each one has a
/// token after it that carries it on.
pub open spec fn none_whole(tokens: Seq<Token>, level: int, start: int) -> bool {
    forall|e: Expr, end: int| #[trigger]
        derives(tokens, level, start, e, end) ==> goes_on(tokens, level, end)
}

/// No list of at most 255 arguments is read from `first` on up to a closing
/// parenthesis.
pub open spec fn no_arguments(tokens: Seq<Token>, first: int) -> bool {
    forall|arguments: Seq<Expr>, last: int| #[trigger]
        listed(tokens, first, arguments, arguments.len() as int, last) && is_at(
            tokens,
            last,
            TokenType::RightParen,
        ) ==> arguments.len() > 255
}

/// An expression of the level of calls starts with a primary expression.
pub proof fn lemma_first_primary(tokens: Seq<Token>, start: int, e: Expr, end: int) -> (w: (
    Expr,
    int,
))
    requires
        derives(tokens, CALL as int, start, e, end),
    ensures
        derives(tokens, PRIMARY as int, start, w.0, w.1),
        w.1 <= end,
    decreases end - start,
{
    lemma_span(tokens, CALL as int, start, e, end);
    if e is Call || e is Get {
        let p = lemma_link(tokens, start, e, end);
        lemma_span(tokens, CALL as int, start, inner_of(e), p);
        lemma_first_primary(tokens, start, inner_of(e), p)
    } else {
        (e, end)
    }
}

/// An expression of a level of operations starts with an expression of the
/// next tighter level, which ends where it ends or before an operator of the
/// level.
pub proof fn lemma_first_operand(
    tokens: Seq<Token>,
    level: int,
    start: int,
    e: Expr,
    end: int,
) -> (w: (Expr, int))
    requires
        UNARY < level <= OR,
        derives(tokens, level, start, e, end),
    ensures
        derives(tokens, level - 1, start, w.0, w.1),
        w.1 <= end,
        w.1 == end || operator_at(tokens, level, w.1),
    decreases end - start,
{
    lemma_span(tokens, level, start, e, end);
    if operation_of(level, e) {
        let at = lemma_operands(tokens, level, start, e, end);
        lemma_span(tokens, level, start, left_of(e), at);
        lemma_first_operand(tokens, level, start, left_of(e), at)
    } else {
        (e, end)
    }
}

/// A list of expressions starts with its first expression, which ends where
/// the list ends or before a comma.
pub proof fn lemma_listed_first(
    tokens: Seq<Token>,
    start: int,
    list: Seq<Expr>,
    count: int,
    end: int,
) -> (w: int)
    requires
        listed(tokens, start, list, count, end),
        0 < count <= list.len(),
    ensures
        derives(tokens, ASSIGNMENT as int, start, list[0], w),
        w <= end,
        w == end || is_at(tokens, w, TokenType::Comma),
    decreases count,
{
    if count > 1 {
        let comma = lemma_last_listed(tokens, start, list, count, end);
        lemma_listed_first(tokens, start, list, count - 1, comma)
    } else {
        end
    }
}

/// Where no primary expression is read, no expression of the level of calls
/// is read.
pub proof fn lemma_none_call(tokens: Seq<Token>, start: int)
    requires
        none_whole(tokens, PRIMARY as int, start),
    ensures
        none_whole(tokens, CALL as int, start),
{
    assert forall|e: Expr, end: int| #[trigger]
        derives(tokens, CALL as int, start, e, end) implies goes_on(tokens, CALL as int, end) by {
        let w = lemma_first_primary(tokens, start, e, end);
    }
}

/// Where no arguments are read after the opening parenthesis that follows
/// an expression of the level of calls, no such expression read from the
/// same token on is whole.
pub proof fn lemma_none_called(tokens: Seq<Token>, start: int, callee: Expr, open: int)
    requires
        derives(tokens, CALL as int, start, callee, open),
        is_at(tokens, open, TokenType::LeftParen),
        no_arguments(tokens, open + 1),
    ensures
        none_whole(tokens, CALL as int, start),
{
    assert forall|e: Expr, end: int| #[trigger]
        derives(tokens, CALL as int, start, e, end) implies goes_on(tokens, CALL as int, end) by {
        if end <= open {
            lemma_unique(tokens, CALL as int, start, e, end, callee, open);
        } else {
            let w = lemma_next_link(tokens, start, callee, open, e, end);
            assert(listed(tokens, open + 1, w.0, w.0.len() as int, w.1 - 1));
        }
    }
}

/// Where no name follows the dot after an expression of the level of calls,
/// no such expression read from the same token on is whole.
pub proof fn lemma_none_got(tokens: Seq<Token>, start: int, object: Expr, dot: int)
    requires
        derives(tokens, CALL as int, start, object, dot),
        is_at(tokens, dot, TokenType::Dot),
        !is_at(tokens, dot + 1, TokenType::Identifier),
    ensures
        none_whole(tokens, CALL as int, start),
{
    assert forall|e: Expr, end: int| #[trigger]
        derives(tokens, CALL as int, start, e, end) implies goes_on(tokens, CALL as int, end) by {
        if end <= dot {
            lemma_unique(tokens, CALL as int, start, e, end, object, dot);
        } else {
            let w = lemma_next_link(tokens, start, object, dot, e, end);
        }
    }
}

/// Where no operand is whole after a unary operator, no expression read
/// from the operator on is whole.
pub proof fn lemma_none_operated(tokens: Seq<Token>, start: int)
    requires
        is_at(tokens, start, TokenType::Bang) || is_at(tokens, start, TokenType::Minus),
        none_whole(tokens, UNARY as int, start + 1),
    ensures
        none_whole(tokens, UNARY as int, start),
{
    assert forall|e: Expr, end: int| #[trigger]
        derives(tokens, UNARY as int, start, e, end) implies goes_on(tokens, UNARY as int, end) by {
        match e {
            Expr::Unary { operator, right } => {
                assert(derives(tokens, UNARY as int, start + 1, *right, end));
            },
            _ => {
                lemma_span(tokens, CALL as int, start, e, end);
            },
        }
    }
}

/// Where no unary operator stands and no expression of the level of calls
/// is whole, no expression of the level of unary operators is whole.
pub proof fn lemma_none_unary(tokens: Seq<Token>, start: int)
    requires
        !is_at(tokens, start, TokenType::Bang),
        !is_at(tokens, start, TokenType::Minus),
        none_whole(tokens, CALL as int, start),
    ensures
        none_whole(tokens, UNARY as int, start),
{
    assert forall|e: Expr, end: int| #[trigger]
        derives(tokens, UNARY as int, start, e, end) implies goes_on(tokens, UNARY as int, end) by {
        lemma_span(tokens, UNARY as int, start, e, end);
        match e {
            Expr::Unary { operator, right } => {},
            _ => {
                assert(derives(tokens, CALL as int, start, e, end));
            },
        }
    }
}

/// Where no expression of the next tighter level is whole, no expression of
/// a level of operations is whole.
pub proof fn lemma_none_operand(tokens: Seq<Token>, level: int, start: int)
    requires
        UNARY < level <= OR,
        none_whole(tokens, level - 1, start),
    ensures
        none_whole(tokens, level, start),
{
    assert forall|e: Expr, end: int| #[trigger]
        derives(tokens, level, start, e, end) implies goes_on(tokens, level, end) by {
        let w = lemma_first_operand(tokens, level, start, e, end);
        lemma_span(tokens, level - 1, start, w.0, w.1);
        if w.1 != end {
            lemma_levels(level, tokens[w.1].token_type);
        }
    }
}

/// Where no operand is whole after the operator that follows an expression
/// of a level of operations, no such expression read from the same token on
/// is whole.
pub proof fn lemma_none_right(tokens: Seq<Token>, level: int, start: int, left: Expr, at: int)
    requires
        UNARY < level <= OR,
        derives(tokens, level, start, left, at),
        operator_at(tokens, level, at),
        none_whole(tokens, level - 1, at + 1),
    ensures
        none_whole(tokens, level, start),
{
    assert forall|e: Expr, end: int| #[trigger]
        derives(tokens, level, start, e, end) implies goes_on(tokens, level, end) by {
        lemma_levels(level, tokens[at].token_type);
        if end <= at {
            lemma_unique(tokens, level, start, e, end, left, at);
        } else {
            let w = lemma_next_operand(tokens, level, start, left, at, e, end);
            lemma_span(tokens, level - 1, at + 1, w.0, w.1);
            if w.1 != end {
                lemma_levels(level, tokens[w.1].token_type);
            }
        }
    }
}

/// Where no expression of the level of `or` is whole, no expression is
/// whole.
pub proof fn lemma_none_or(tokens: Seq<Token>, start: int)
    requires
        none_whole(tokens, OR as int, start),
    ensures
        none_whole(tokens, ASSIGNMENT as int, start),
{
    assert forall|e: Expr, end: int| #[trigger]
        derives(tokens, ASSIGNMENT as int, start, e, end) implies goes_on(
        tokens,
        ASSIGNMENT as int,
        end,
    ) by {
        lemma_span(tokens, ASSIGNMENT as int, start, e, end);
        if e is Assign {
            let var = lemma_variable(tokens, start);
            assert(goes_on(tokens, OR as int, start + 1));
        } else if e is SetField {
            let dot = lemma_set(tokens, start, e, end);
            let g = lemma_property(tokens, start, *e->SetField_object, dot);
            assert(goes_on(tokens, OR as int, dot + 2));
        } else {
            assert(derives(tokens, OR as int, start, e, end));
        }
    }
}

/// Where no value is whole after a variable and a `=`, no expression read
/// from the variable on is whole.
pub proof fn lemma_none_assigned(tokens: Seq<Token>, start: int)
    requires
        is_at(tokens, start, TokenType::Identifier),
        is_at(tokens, start + 1, TokenType::Equal),
        none_whole(tokens, ASSIGNMENT as int, start + 2),
    ensures
        none_whole(tokens, ASSIGNMENT as int, start),
{
    assert forall|e: Expr, end: int| #[trigger]
        derives(tokens, ASSIGNMENT as int, start, e, end) implies goes_on(
        tokens,
        ASSIGNMENT as int,
        end,
    ) by {
        lemma_assigned(tokens, start, e, end);
        assert(derives(tokens, ASSIGNMENT as int, start + 2, *e->Assign_value, end));
    }
}

/// Where no value is whole after a property and a `=`, no expression read
/// from the same token on as the property is whole.
pub proof fn lemma_none_set(tokens: Seq<Token>, start: int, target: Expr, stop: int)
    requires
        derives(tokens, OR as int, start, target, stop),
        target is Get,
        is_at(tokens, stop, TokenType::Equal),
        none_whole(tokens, ASSIGNMENT as int, stop + 1),
    ensures
        none_whole(tokens, ASSIGNMENT as int, start),
{
    lemma_span(tokens, OR as int, start, target, stop);
    assert forall|e: Expr, end: int| #[trigger]
        derives(tokens, ASSIGNMENT as int, start, e, end) implies goes_on(
        tokens,
        ASSIGNMENT as int,
        end,
    ) by {
        lemma_span(tokens, ASSIGNMENT as int, start, e, end);
        if e is Assign {
            let var = lemma_variable(tokens, start);
            lemma_unique(tokens, OR as int, start, var, start + 1, target, stop);
        } else if e is SetField {
            let dot = lemma_set(tokens, start, e, end);
            let g = lemma_property(tokens, start, *e->SetField_object, dot);
            if dot + 2 <= stop {
                lemma_unique(tokens, OR as int, start, g, dot + 2, target, stop);
            } else {
                lemma_unique(tokens, OR as int, start, target, stop, g, dot + 2);
            }
        } else {
            if end <= stop {
                lemma_unique(tokens, OR as int, start, e, end, target, stop);
            } else {
                lemma_unique(tokens, OR as int, start, target, stop, e, end);
            }
        }
    }
}

/// Where no expression is whole after an opening parenthesis, no primary
/// expression is read from the parenthesis on.
pub proof fn lemma_none_grouped(tokens: Seq<Token>, start: int)
    requires
        is_at(tokens, start, TokenType::LeftParen),
        none_whole(tokens, ASSIGNMENT as int, start + 1),
    ensures
        none_whole(tokens, PRIMARY as int, start),
{
    assert forall|e: Expr, last: int| #[trigger]
        derives(tokens, PRIMARY as int, start, e, last) implies goes_on(
        tokens,
        PRIMARY as int,
        last,
    ) by {
        match e {
            Expr::Grouping { expr } => {
                assert(derives(tokens, ASSIGNMENT as int, start + 1, *expr, last - 1));
            },
            _ => {},
        }
    }
}

/// Where the whole expression after an opening parenthesis has no closing
/// parenthesis after it, no primary expression is read from the opening
/// parenthesis on.
pub proof fn lemma_none_closed(tokens: Seq<Token>, start: int, inner: Expr, end: int)
    requires
        is_at(tokens, start, TokenType::LeftParen),
        derives(tokens, ASSIGNMENT as int, start + 1, inner, end),
        !goes_on(tokens, ASSIGNMENT as int, end),
        !is_at(tokens, end, TokenType::RightParen),
    ensures
        none_whole(tokens, PRIMARY as int, start),
{
    assert forall|e: Expr, last: int| #[trigger]
        derives(tokens, PRIMARY as int, start, e, last) implies goes_on(
        tokens,
        PRIMARY as int,
        last,
    ) by {
        match e {
            Expr::Grouping { expr } => {
                lemma_whole(tokens, start + 1, inner, end, *expr, last - 1);
            },
            _ => {},
        }
    }
}

/// Where a comma follows 255 arguments, no list of at most 255 arguments
/// is read.
pub proof fn lemma_none_listed_more(tokens: Seq<Token>, first: int, list: Seq<Expr>, comma: int)
    requires
        listed(tokens, first, list, list.len() as int, comma),
        list.len() >= 255,
        is_at(tokens, comma, TokenType::Comma),
    ensures
        no_arguments(tokens, first),
{
    assert forall|arguments: Seq<Expr>, last: int| #[trigger]
        listed(tokens, first, arguments, arguments.len() as int, last) && is_at(
            tokens,
            last,
            TokenType::RightParen,
        ) implies arguments.len() > 255 by {
        let k = arguments.len() as int;
        lemma_listed_span(tokens, first, list, list.len() as int, comma);
        lemma_listed_span(tokens, first, arguments, k, last);
        if k > 0 {
            if comma <= last {
                let n = list.len() as int;
                lemma_listed_unique(tokens, first, list, n, comma, arguments, k, last);
            } else {
                let n = list.len() as int;
                lemma_listed_unique(tokens, first, arguments, k, last, list, n, comma);
            }
        }
    }
}

/// Where no argument is whole at the start of a list that is not empty, no
/// list of arguments is read.
pub proof fn lemma_none_listed_first(tokens: Seq<Token>, first: int)
    requires
        !is_at(tokens, first, TokenType::RightParen),
        none_whole(tokens, ASSIGNMENT as int, first),
    ensures
        no_arguments(tokens, first),
{
    assert forall|arguments: Seq<Expr>, last: int| #[trigger]
        listed(tokens, first, arguments, arguments.len() as int, last) && is_at(
            tokens,
            last,
            TokenType::RightParen,
        ) implies arguments.len() > 255 by {
        let k = arguments.len() as int;
        if k > 0 {
            let w = lemma_listed_first(tokens, first, arguments, k, last);
        }
    }
}

/// Where no argument is whole after the comma that follows a list of
/// arguments, no list of arguments is read.
pub proof fn lemma_none_listed_next(
    tokens: Seq<Token>,
    first: int,
    list: Seq<Expr>,
    comma: int,
)
    requires
        listed(tokens, first, list, list.len() as int, comma),
        list.len() > 0,
        is_at(tokens, comma, TokenType::Comma),
        none_whole(tokens, ASSIGNMENT as int, comma + 1),
    ensures
        no_arguments(tokens, first),
{
    assert forall|arguments: Seq<Expr>, last: int| #[trigger]
        listed(tokens, first, arguments, arguments.len() as int, last) && is_at(
            tokens,
            last,
            TokenType::RightParen,
        ) implies arguments.len() > 255 by {
        let k = arguments.len() as int;
        let n = list.len() as int;
        lemma_listed_span(tokens, first, list, n, comma);
        lemma_listed_span(tokens, first, arguments, k, last);
        if k > 0 {
            if comma <= last {
                lemma_listed_unique(tokens, first, list, n, comma, arguments, k, last);
                let w = lemma_next_listed(tokens, first, list, n, comma, arguments, k, last);
            } else {
                lemma_listed_unique(tokens, first, arguments, k, last, list, n, comma);
            }
        }
    }
}

/// Where neither a comma nor a closing parenthesis follows a list of whole
/// arguments, no list of arguments is read.
pub proof fn lemma_none_listed_open(tokens: Seq<Token>, first: int, list: Seq<Expr>, end: int)
    requires
        listed(tokens, first, list, list.len() as int, end),
        list.len() > 0,
        !goes_on(tokens, ASSIGNMENT as int, end),
        !is_at(tokens, end, TokenType::Comma),
        !is_at(tokens, end, TokenType::RightParen),
    ensures
        no_arguments(tokens, first),
{
    assert forall|arguments: Seq<Expr>, last: int| #[trigger]
        listed(tokens, first, arguments, arguments.len() as int, last) && is_at(
            tokens,
            last,
            TokenType::RightParen,
        ) implies arguments.len() > 255 by {
        let k = arguments.len() as int;
        let n = list.len() as int;
        lemma_listed_span(tokens, first, list, n, end);
        lemma_listed_span(tokens, first, arguments, k, last);
        if k > 0 {
            if end <= last {
                lemma_listed_unique(tokens, first, list, n, end, arguments, k, last);
            } else {
                lemma_listed_unique(tokens, first, arguments, k, last, list, n, end);
            }
        }
    }
}


/// Where `super` has no dot and method name after it, no primary expression
/// is read from it on.
pub proof fn lemma_none_super(tokens: Seq<Token>, start: int)
    requires
        is_at(tokens, start, TokenType::Super),
        !is_at(tokens, start + 1, TokenType::Dot) || !is_at(
            tokens,
            start + 2,
            TokenType::Identifier,
        ),
    ensures
        none_whole(tokens, PRIMARY as int, start),
{
}

/// Where no token that starts a primary expression stands, none is read.
pub proof fn lemma_none_primary(tokens: Seq<Token>, start: int)
    requires
        !(0 <= start < tokens.len() && starts_primary(tokens[start].token_type)),
    ensures
        none_whole(tokens, PRIMARY as int, start),
{
    assert forall|e: Expr, last: int| #[trigger]
        derives(tokens, PRIMARY as int, start, e, last) implies goes_on(
        tokens,
        PRIMARY as int,
        last,
    ) by {
        lemma_span(tokens, PRIMARY as int, start, e, last);
    }
}

/// No expression read from `start` on ends before a token of the kind.
pub open spec fn closes_none(tokens: Seq<Token>, start: int, kind: TokenType) -> bool {
    forall|e: Expr, last: int| #[trigger]
        derives(tokens, ASSIGNMENT as int, start, e, last) ==> !is_at(tokens, last, kind)
}

/// No statement is read from `start` on.
pub open spec fn no_statement(tokens: Seq<Token>, start: int) -> bool {
    forall|s: Stmt, end: int| !#[trigger] statement_at(tokens, start, s, end)
}

/// No declaration is read from `start` on.
pub open spec fn no_declaration(tokens: Seq<Token>, start: int) -> bool {
    forall|s: Stmt, end: int| !#[trigger] declaration_at(tokens, start, s, end)
}

/// No variable declaration is read from the name at `start` on.
pub open spec fn no_variable(tokens: Seq<Token>, start: int) -> bool {
    forall|s: Stmt, end: int| !#[trigger] variable_at(tokens, start, s, end)
}

/// No function is read from the name at `start` on.
pub open spec fn no_function(tokens: Seq<Token>, start: int) -> bool {
    forall|s: Stmt, end: int| !#[trigger] function_at(tokens, start, s, end)
}

/// No class is read from the name at `start` on.
pub open spec fn no_class(tokens: Seq<Token>, start: int) -> bool {
    forall|s: Stmt, end: int| !#[trigger] class_at(tokens, start, s, end)
}

/// No `if` statement is read from the parenthesis at `start` on.
pub open spec fn no_if(tokens: Seq<Token>, start: int) -> bool {
    forall|s: Stmt, end: int| !#[trigger] if_at(tokens, start, s, end)
}

/// No `while` loop is read from the parenthesis at `start` on.
pub open spec fn no_while(tokens: Seq<Token>, start: int) -> bool {
    forall|s: Stmt, end: int| !#[trigger] while_at(tokens, start, s, end)
}

/// No `for` loop is read from the parenthesis at `start` on.
pub open spec fn no_for(tokens: Seq<Token>, start: int) -> bool {
    forall|s: Stmt, end: int| !#[trigger] for_at(tokens, start, s, end)
}

/// No block is read from `start`, after the opening brace, on.
pub open spec fn no_block(tokens: Seq<Token>, start: int) -> bool {
    forall|b: Seq<Stmt>, end: int| !#[trigger] block_at(tokens, start, b, end)
}

/// No list of at most 255 parameters of different names is read from
/// `first` on up to a closing parenthesis.
pub open spec fn no_names(tokens: Seq<Token>, first: int) -> bool {
    forall|names: Seq<Token>, close: int| #[trigger]
        named(tokens, first, names, names.len() as int, close) && is_at(
            tokens,
            close,
            TokenType::RightParen,
        ) ==> names.len() > 255 || !distinct(names)
}

/// The tokens from `start` on are no program.
pub open spec fn no_program(tokens: Seq<Token>, start: int) -> bool {
    forall|p: Seq<Stmt>| !#[trigger] sequence_at(
        tokens,
        start,
        p,
        p.len() as int,
        tokens.len() as int,
    )
}

/// Where no expression is whole, none ends before a token that carries on
/// no expression.
pub proof fn lemma_closes_none(tokens: Seq<Token>, start: int, kind: TokenType)
    requires
        none_whole(tokens, ASSIGNMENT as int, start),
        !carries_on(ASSIGNMENT as int, kind),
    ensures
        closes_none(tokens, start, kind),
{
}

/// Where the whole expression does not end before a token of a kind that
/// carries on no expression, no expression read from the same token on does.
pub proof fn lemma_closes_other(
    tokens: Seq<Token>,
    start: int,
    e: Expr,
    end: int,
    kind: TokenType,
)
    requires
        derives(tokens, ASSIGNMENT as int, start, e, end),
        !goes_on(tokens, ASSIGNMENT as int, end),
        !is_at(tokens, end, kind),
        !carries_on(ASSIGNMENT as int, kind),
    ensures
        closes_none(tokens, start, kind),
{
    assert forall|other: Expr, last: int| #[trigger]
        derives(tokens, ASSIGNMENT as int, start, other, last) implies !is_at(
        tokens,
        last,
        kind,
    ) by {
        if is_at(tokens, last, kind) {
            lemma_whole(tokens, start, e, end, other, last);
        }
    }
}

/// Where no expression ends before a semicolon, and no other statement
/// starts, no statement is read.
pub proof fn lemma_none_expression(tokens: Seq<Token>, start: int)
    requires
        closes_none(tokens, start, TokenType::Semi),
        !is_at(tokens, start, TokenType::For),
        !is_at(tokens, start, TokenType::If),
        !is_at(tokens, start, TokenType::While),
        !is_at(tokens, start, TokenType::Print),
        !is_at(tokens, start, TokenType::Return),
        !is_at(tokens, start, TokenType::LeftBrace),
    ensures
        no_statement(tokens, start),
{
    assert forall|s: Stmt, end: int| !#[trigger] statement_at(tokens, start, s, end) by {
        if statement_at(tokens, start, s, end) {
            match s {
                Stmt::Expression(e) => {
                    assert(derives(tokens, ASSIGNMENT as int, start, e, end - 1));
                },
                _ => {},
            }
        }
    }
}

/// Where no expression ends before a semicolon after `print`, no statement
/// is read from `print` on.
pub proof fn lemma_none_print(tokens: Seq<Token>, start: int)
    requires
        is_at(tokens, start, TokenType::Print),
        closes_none(tokens, start + 1, TokenType::Semi),
    ensures
        no_statement(tokens, start),
{
    assert forall|s: Stmt, end: int| !#[trigger] statement_at(tokens, start, s, end) by {
        if statement_at(tokens, start, s, end) {
            match s {
                Stmt::Expression(e) => {
                    lemma_span(tokens, ASSIGNMENT as int, start, e, end - 1);
                },
                Stmt::Print(e) => {
                    assert(derives(tokens, ASSIGNMENT as int, start + 1, e, end - 1));
                },
                _ => {},
            }
        }
    }
}

/// Where neither a semicolon nor an expression that ends before one
/// follows `return`, no statement is read from `return` on.
pub proof fn lemma_none_return(tokens: Seq<Token>, start: int)
    requires
        is_at(tokens, start, TokenType::Return),
        !is_at(tokens, start + 1, TokenType::Semi),
        closes_none(tokens, start + 1, TokenType::Semi),
    ensures
        no_statement(tokens, start),
{
    assert forall|s: Stmt, end: int| !#[trigger] statement_at(tokens, start, s, end) by {
        if statement_at(tokens, start, s, end) {
            match s {
                Stmt::Expression(e) => {
                    lemma_span(tokens, ASSIGNMENT as int, start, e, end - 1);
                },
                Stmt::Return { keyword, value: Some(e) } => {
                    assert(derives(tokens, ASSIGNMENT as int, start + 1, e, end - 1));
                },
                _ => {},
            }
        }
    }
}

/// Where the name of a variable has neither a semicolon nor a `=` and an
/// initializer that ends before a semicolon after it, no variable
/// declaration is read.
pub proof fn lemma_none_variable(tokens: Seq<Token>, start: int)
    requires
        !is_at(tokens, start, TokenType::Identifier) || if is_at(
            tokens,
            start + 1,
            TokenType::Equal,
        ) {
            closes_none(tokens, start + 2, TokenType::Semi)
        } else {
            !is_at(tokens, start + 1, TokenType::Semi)
        },
    ensures
        no_variable(tokens, start),
{
    assert forall|s: Stmt, end: int| !#[trigger] variable_at(tokens, start, s, end) by {
        if variable_at(tokens, start, s, end) {
            match s {
                Stmt::Var { name, initializer: Some(e) } => {
                    assert(derives(tokens, ASSIGNMENT as int, start + 2, e, end - 1));
                },
                _ => {},
            }
        }
    }
}

/// Nothing is read from the end of the tokens on.
pub proof fn lemma_none_at_end(tokens: Seq<Token>, start: int)
    requires
        start >= tokens.len(),
    ensures
        no_declaration(tokens, start),
{
    assert forall|s: Stmt, end: int| !#[trigger] declaration_at(tokens, start, s, end) by {
        if declaration_at(tokens, start, s, end) {
            lemma_declaration_span(tokens, start, s, end);
        }
    }
}

/// Where the declarations read so far have neither a closing brace nor a
/// declaration after them, no block is read.
pub proof fn lemma_none_block(tokens: Seq<Token>, start: int, list: Seq<Stmt>, mid: int)
    requires
        sequence_at(tokens, start, list, list.len() as int, mid),
        !is_at(tokens, mid, TokenType::RightBrace),
        no_declaration(tokens, mid),
    ensures
        no_block(tokens, start),
{
    assert forall|b: Seq<Stmt>, end: int| !#[trigger] block_at(tokens, start, b, end) by {
        if block_at(tokens, start, b, end) {
            let n = list.len() as int;
            let k = b.len() as int;
            if mid <= end - 1 {
                let w = lemma_sequence_unique(tokens, start, list, n, mid, b, k, end - 1);
            } else {
                let w = lemma_sequence_unique(tokens, start, b, k, end - 1, list, n, mid);
                lemma_declaration_span(tokens, end - 1, list[k], w);
            }
        }
    }
}

/// Where the declarations read so far end before the end of the tokens and
/// have no declaration after them, the tokens are no program.
pub proof fn lemma_none_program(tokens: Seq<Token>, start: int, list: Seq<Stmt>, mid: int)
    requires
        sequence_at(tokens, start, list, list.len() as int, mid),
        mid < tokens.len(),
        no_declaration(tokens, mid),
    ensures
        no_program(tokens, start),
{
    assert forall|p: Seq<Stmt>| !#[trigger] sequence_at(
        tokens,
        start,
        p,
        p.len() as int,
        tokens.len() as int,
    ) by {
        let end = tokens.len() as int;
        if sequence_at(tokens, start, p, p.len() as int, end) {
            let w = lemma_sequence_unique(
                tokens,
                start,
                list,
                list.len() as int,
                mid,
                p,
                p.len() as int,
                end,
            );
        }
    }
}

/// Where no class, function or variable declaration is read after its
/// keyword, no declaration is read from the keyword on.
pub proof fn lemma_none_declared(tokens: Seq<Token>, start: int)
    requires
        ({
            ||| is_at(tokens, start, TokenType::Class) && no_class(tokens, start + 1)
            ||| is_at(tokens, start, TokenType::Def) && no_function(tokens, start + 1)
            ||| is_at(tokens, start, TokenType::Let) && no_variable(tokens, start + 1)
            ||| {
                &&& !is_at(tokens, start, TokenType::Class)
                &&& !is_at(tokens, start, TokenType::Def)
                &&& !is_at(tokens, start, TokenType::Let)
                &&& no_statement(tokens, start)
            }
        }),
    ensures
        no_declaration(tokens, start),
{
    assert forall|s: Stmt, end: int| !#[trigger] declaration_at(tokens, start, s, end) by {
        if declaration_at(tokens, start, s, end) {
            match s {
                Stmt::Class { .. } => {
                    assert(class_at(tokens, start + 1, s, end));
                },
                Stmt::Function { .. } => {
                    assert(function_at(tokens, start + 1, s, end));
                },
                Stmt::Var { .. } => {
                    assert(variable_at(tokens, start + 1, s, end));
                },
                _ => {
                    assert(statement_at(tokens, start, s, end));
                    lemma_statement_span(tokens, start, s, end);
                },
            }
        }
    }
}

/// Where no `for`, `if` or `while` statement and no block is read after
/// the token that starts it, no statement is read from that token on.
pub proof fn lemma_none_started(tokens: Seq<Token>, start: int)
    requires
        ({
            ||| is_at(tokens, start, TokenType::For) && no_for(tokens, start + 1)
            ||| is_at(tokens, start, TokenType::If) && no_if(tokens, start + 1)
            ||| is_at(tokens, start, TokenType::While) && no_while(tokens, start + 1)
            ||| is_at(tokens, start, TokenType::LeftBrace) && no_block(tokens, start + 1)
        }),
    ensures
        no_statement(tokens, start),
{
    assert forall|s: Stmt, end: int| !#[trigger] statement_at(tokens, start, s, end) by {
        if statement_at(tokens, start, s, end) {
            if is_at(tokens, start, TokenType::For) {
                lemma_for_kind(tokens, start, s, end);
            } else {
                match s {
                    Stmt::Expression(e) => {
                        lemma_span(tokens, ASSIGNMENT as int, start, e, end - 1);
                    },
                    Stmt::Block(b) => {
                        assert(block_at(tokens, start + 1, b@, end));
                    },
                    Stmt::If { .. } => {
                        assert(if_at(tokens, start + 1, s, end));
                    },
                    Stmt::While { .. } => {
                        assert(while_at(tokens, start + 1, s, end));
                    },
                    _ => {},
                }
            }
        }
    }
}

/// Where no condition in parentheses is read, or no statement after it, no
/// `if` statement is read.
pub proof fn lemma_none_if(tokens: Seq<Token>, start: int, condition: Expr, close: int)
    requires
        ({
            ||| !is_at(tokens, start, TokenType::LeftParen)
            ||| closes_none(tokens, start + 1, TokenType::RightParen)
            ||| {
                &&& derives(tokens, ASSIGNMENT as int, start + 1, condition, close)
                &&& is_at(tokens, close, TokenType::RightParen)
                &&& no_statement(tokens, close + 1)
            }
        }),
    ensures
        no_if(tokens, start),
{
    assert forall|s: Stmt, end: int| !#[trigger] if_at(tokens, start, s, end) by {
        if if_at(tokens, start, s, end) {
            let (c, o) = lemma_if_parts(tokens, start, s, end);
            if !closes_none(tokens, start + 1, TokenType::RightParen) {
                lemma_whole(tokens, start + 1, condition, close, s->If_condition, c);
            }
        }
    }
}

/// Where no statement is read after the `else` of an `if` statement, no
/// `if` statement is read.
pub proof fn lemma_none_else(
    tokens: Seq<Token>,
    start: int,
    condition: Expr,
    close: int,
    then_branch: Stmt,
    other: int,
)
    requires
        derives(tokens, ASSIGNMENT as int, start + 1, condition, close),
        is_at(tokens, close, TokenType::RightParen),
        statement_at(tokens, close + 1, then_branch, other),
        is_at(tokens, other, TokenType::Else),
        no_statement(tokens, other + 1),
    ensures
        no_if(tokens, start),
{
    assert forall|s: Stmt, end: int| !#[trigger] if_at(tokens, start, s, end) by {
        if if_at(tokens, start, s, end) {
            let (c, o) = lemma_if_parts(tokens, start, s, end);
            lemma_whole(tokens, start + 1, condition, close, s->If_condition, c);
            lemma_statement_unique(tokens, close + 1, then_branch, other, *s->If_then_branch, o);
        }
    }
}

/// Where no condition in parentheses is read, or no statement after it, no
/// `while` loop is read.
pub proof fn lemma_none_while(tokens: Seq<Token>, start: int, condition: Expr, close: int)
    requires
        ({
            ||| !is_at(tokens, start, TokenType::LeftParen)
            ||| closes_none(tokens, start + 1, TokenType::RightParen)
            ||| {
                &&& derives(tokens, ASSIGNMENT as int, start + 1, condition, close)
                &&& is_at(tokens, close, TokenType::RightParen)
                &&& no_statement(tokens, close + 1)
            }
        }),
    ensures
        no_while(tokens, start),
{
    assert forall|s: Stmt, end: int| !#[trigger] while_at(tokens, start, s, end) by {
        if while_at(tokens, start, s, end) {
            let c = lemma_while_parts(tokens, start, s, end);
            if !closes_none(tokens, start + 1, TokenType::RightParen) {
                lemma_whole(tokens, start + 1, condition, close, s->While_condition, c);
            }
        }
    }
}

/// The initializer of a `for` loop whose opening parenthesis stands at
/// `start` ends at `first`: a semicolon alone for none, or a variable
/// declaration, or an expression and a semicolon.
pub open spec fn begins(
    tokens: Seq<Token>,
    start: int,
    initializer: Option<Stmt>,
    first: int,
) -> bool {
    match initializer {
        None => is_at(tokens, start + 1, TokenType::Semi) && first == start + 2,
        Some(Stmt::Var { name, initializer: value }) => is_at(tokens, start + 1, TokenType::Let)
            && variable_at(tokens, start + 2, Stmt::Var { name, initializer: value }, first),
        Some(Stmt::Expression(e)) => {
            &&& !is_at(tokens, start + 1, TokenType::Semi)
            &&& !is_at(tokens, start + 1, TokenType::Let)
            &&& derives(tokens, ASSIGNMENT as int, start + 1, e, first - 1)
            &&& is_at(tokens, first - 1, TokenType::Semi)
        },
        _ => false,
    }
}

/// The condition of a `for` loop, read from `first` on, ends before the
/// semicolon at `second`; a loop without one has the semicolon at `first`.
pub open spec fn tested(
    tokens: Seq<Token>,
    first: int,
    condition: Option<Expr>,
    second: int,
) -> bool {
    &&& is_at(tokens, second, TokenType::Semi)
    &&& match condition {
        None => first == second,
        Some(c) => derives(tokens, ASSIGNMENT as int, first, c, second),
    }
}

/// The increment of a `for` loop, read from after the semicolon at `second`
/// on, ends before the closing parenthesis at `close`; a loop without one
/// has the parenthesis after the semicolon.
pub open spec fn advanced(
    tokens: Seq<Token>,
    second: int,
    increment: Option<Expr>,
    close: int,
) -> bool {
    &&& is_at(tokens, close, TokenType::RightParen)
    &&& match increment {
        None => close == second + 1,
        Some(i) => derives(tokens, ASSIGNMENT as int, second + 1, i, close),
    }
}

/// The initializer of what a `for` loop is written as.
pub open spec fn initializer_of(s: Stmt) -> Option<Stmt> {
    match s {
        Stmt::Block(both) => Some(both@[0]),
        _ => None,
    }
}

/// The `while` loop in what a `for` loop is written as.
pub open spec fn loop_of(s: Stmt) -> Stmt {
    match s {
        Stmt::Block(both) => both@[1],
        _ => s,
    }
}

/// The parts of a `for` loop: where its initializer, its condition and its
/// increment end.
pub proof fn lemma_for_loop(tokens: Seq<Token>, start: int, s: Stmt, end: int) -> (w: (
    int,
    int,
    int,
))
    requires
        for_at(tokens, start, s, end),
    ensures
        is_at(tokens, start, TokenType::LeftParen),
        begins(tokens, start, initializer_of(s), w.0),
        loop_of(s) is While,
        for_loop(
            tokens,
            loop_of(s)->While_condition,
            *loop_of(s)->While_body,
            w.0,
            w.1,
            w.2,
            end,
        ),
{
    lemma_for_parts(tokens, start, s, end)
}

/// The initializer of a `for` loop ends at one index only.
pub proof fn lemma_begins_unique(
    tokens: Seq<Token>,
    start: int,
    i1: Option<Stmt>,
    f1: int,
    i2: Option<Stmt>,
    f2: int,
)
    requires
        begins(tokens, start, i1, f1),
        begins(tokens, start, i2, f2),
    ensures
        f1 == f2,
{
    match i1 {
        Some(Stmt::Var { .. }) => {
            match i2 {
                Some(Stmt::Var { .. }) => {
                    lemma_variable_unique(tokens, start + 2, i1->Some_0, f1, i2->Some_0, f2);
                },
                _ => {},
            }
        },
        Some(Stmt::Expression(e1)) => {
            match i2 {
                Some(Stmt::Expression(e2)) => {
                    lemma_whole(tokens, start + 1, e1, f1 - 1, e2, f2 - 1);
                },
                _ => {},
            }
        },
        _ => {},
    }
}

/// The condition of a `for` loop ends at one index only.
pub proof fn lemma_tested_unique(
    tokens: Seq<Token>,
    first: int,
    condition: Option<Expr>,
    second: int,
    c2: Expr,
    b2: Stmt,
    s2: int,
    p2: int,
    end: int,
)
    requires
        tested(tokens, first, condition, second),
        for_loop(tokens, c2, b2, first, s2, p2, end),
    ensures
        s2 == second,
{
    if first != s2 {
        lemma_span(tokens, ASSIGNMENT as int, first, c2, s2);
    }
    match condition {
        Some(c) => {
            lemma_span(tokens, ASSIGNMENT as int, first, c, second);
            if first != s2 {
                lemma_whole(tokens, first, c, second, c2, s2);
            }
        },
        None => {},
    }
}

/// The increment of a `for` loop ends at one index only.
pub proof fn lemma_advanced_unique(
    tokens: Seq<Token>,
    first: int,
    second: int,
    increment: Option<Expr>,
    close: int,
    c2: Expr,
    b2: Stmt,
    p2: int,
    end: int,
)
    requires
        advanced(tokens, second, increment, close),
        for_loop(tokens, c2, b2, first, second, p2, end),
    ensures
        p2 == close,
{
    if p2 != second + 1 {
        match b2 {
            Stmt::Block(pair) => {
                match pair@[1] {
                    Stmt::Expression(i2) => {
                        lemma_span(tokens, ASSIGNMENT as int, second + 1, i2, p2);
                        match increment {
                            Some(i) => {
                                lemma_whole(tokens, second + 1, i, close, i2, p2);
                            },
                            None => {},
                        }
                    },
                    _ => {},
                }
            },
            _ => {},
        }
    } else {
        match increment {
            Some(i) => {
                lemma_span(tokens, ASSIGNMENT as int, second + 1, i, close);
            },
            None => {},
        }
    }
}

/// Where no initializer is read after the opening parenthesis, no `for`
/// loop is read.
pub proof fn lemma_none_for_first(tokens: Seq<Token>, start: int)
    requires
        ({
            ||| !is_at(tokens, start, TokenType::LeftParen)
            ||| is_at(tokens, start + 1, TokenType::Let) && no_variable(tokens, start + 2)
            ||| {
                &&& !is_at(tokens, start + 1, TokenType::Semi)
                &&& !is_at(tokens, start + 1, TokenType::Let)
                &&& closes_none(tokens, start + 1, TokenType::Semi)
            }
        }),
    ensures
        no_for(tokens, start),
{
    assert forall|s: Stmt, end: int| !#[trigger] for_at(tokens, start, s, end) by {
        if for_at(tokens, start, s, end) {
            let w = lemma_for_loop(tokens, start, s, end);
            match initializer_of(s) {
                Some(Stmt::Var { .. }) => {
                    assert(variable_at(tokens, start + 2, initializer_of(s)->Some_0, w.0));
                },
                Some(Stmt::Expression(e)) => {
                    assert(derives(tokens, ASSIGNMENT as int, start + 1, e, w.0 - 1));
                },
                _ => {},
            }
        }
    }
}

/// Where no condition is read after the initializer, no `for` loop is
/// read.
pub proof fn lemma_none_for_second(
    tokens: Seq<Token>,
    start: int,
    initializer: Option<Stmt>,
    first: int,
)
    requires
        begins(tokens, start, initializer, first),
        !is_at(tokens, first, TokenType::Semi),
        closes_none(tokens, first, TokenType::Semi),
    ensures
        no_for(tokens, start),
{
    assert forall|s: Stmt, end: int| !#[trigger] for_at(tokens, start, s, end) by {
        if for_at(tokens, start, s, end) {
            let w = lemma_for_loop(tokens, start, s, end);
            lemma_begins_unique(tokens, start, initializer, first, initializer_of(s), w.0);
            if first != w.1 {
                assert(derives(tokens, ASSIGNMENT as int, first, loop_of(s)->While_condition, w.1));
            }
        }
    }
}

/// Where no increment is read after the condition, no `for` loop is read.
pub proof fn lemma_none_for_third(
    tokens: Seq<Token>,
    start: int,
    initializer: Option<Stmt>,
    first: int,
    condition: Option<Expr>,
    second: int,
)
    requires
        begins(tokens, start, initializer, first),
        tested(tokens, first, condition, second),
        !is_at(tokens, second + 1, TokenType::RightParen),
        closes_none(tokens, second + 1, TokenType::RightParen),
    ensures
        no_for(tokens, start),
{
    assert forall|s: Stmt, end: int| !#[trigger] for_at(tokens, start, s, end) by {
        if for_at(tokens, start, s, end) {
            let w = lemma_for_loop(tokens, start, s, end);
            lemma_begins_unique(tokens, start, initializer, first, initializer_of(s), w.0);
            let c2 = loop_of(s)->While_condition;
            let b2 = *loop_of(s)->While_body;
            lemma_tested_unique(tokens, first, condition, second, c2, b2, w.1, w.2, end);
            if w.2 != second + 1 {
                match b2 {
                    Stmt::Block(pair) => {
                        match pair@[1] {
                            Stmt::Expression(i2) => {
                                assert(derives(tokens, ASSIGNMENT as int, second + 1, i2, w.2));
                            },
                            _ => {},
                        }
                    },
                    _ => {},
                }
            }
        }
    }
}

/// Where no statement is read after the closing parenthesis, no `for` loop
/// is read.
pub proof fn lemma_none_for_body(
    tokens: Seq<Token>,
    start: int,
    initializer: Option<Stmt>,
    first: int,
    condition: Option<Expr>,
    second: int,
    increment: Option<Expr>,
    close: int,
)
    requires
        begins(tokens, start, initializer, first),
        tested(tokens, first, condition, second),
        advanced(tokens, second, increment, close),
        no_statement(tokens, close + 1),
    ensures
        no_for(tokens, start),
{
    assert forall|s: Stmt, end: int| !#[trigger] for_at(tokens, start, s, end) by {
        if for_at(tokens, start, s, end) {
            let w = lemma_for_loop(tokens, start, s, end);
            lemma_begins_unique(tokens, start, initializer, first, initializer_of(s), w.0);
            let c2 = loop_of(s)->While_condition;
            let b2 = *loop_of(s)->While_body;
            lemma_tested_unique(tokens, first, condition, second, c2, b2, w.1, w.2, end);
            lemma_advanced_unique(tokens, first, second, increment, close, c2, b2, w.2, end);
            if close == second + 1 {
                assert(statement_at(tokens, close + 1, b2, end));
            } else {
                match b2 {
                    Stmt::Block(pair) => {
                        assert(statement_at(tokens, close + 1, pair@[0], end));
                    },
                    _ => {},
                }
            }
        }
    }
}

/// Where neither a closing parenthesis nor a name stands at the start of
/// the parameters, no list of parameters is read.
pub proof fn lemma_none_named_first(tokens: Seq<Token>, first: int)
    requires
        !is_at(tokens, first, TokenType::RightParen),
        !is_at(tokens, first, TokenType::Identifier),
    ensures
        no_names(tokens, first),
{
    assert forall|names: Seq<Token>, close: int| #[trigger]
        named(tokens, first, names, names.len() as int, close) && is_at(
            tokens,
            close,
            TokenType::RightParen,
        ) implies names.len() > 255 || !distinct(names) by {
        if names.len() > 0 {
            lemma_named_at(tokens, first, names, names.len() as int, close, 0);
        }
    }
}

/// Where the parameters read so far are followed by a comma and no name,
/// or by a comma after 255 of them, or by neither a comma nor a closing
/// parenthesis, no list of at most 255 parameters is read.
pub proof fn lemma_none_named(tokens: Seq<Token>, first: int, list: Seq<Token>, end: int)
    requires
        named(tokens, first, list, list.len() as int, end),
        list.len() > 0,
        if is_at(tokens, end, TokenType::Comma) {
            list.len() >= 255 || !is_at(tokens, end + 1, TokenType::Identifier)
        } else {
            !is_at(tokens, end, TokenType::RightParen)
        },
    ensures
        no_names(tokens, first),
{
    let n = list.len() as int;
    lemma_named_at(tokens, first, list, n, end, 0);
    assert forall|names: Seq<Token>, close: int| #[trigger]
        named(tokens, first, names, names.len() as int, close) && is_at(
            tokens,
            close,
            TokenType::RightParen,
        ) implies names.len() > 255 || !distinct(names) by {
        let k = names.len() as int;
        if k > 0 {
            lemma_named_at(tokens, first, names, k, close, 0);
            if k < n {
                lemma_named_at(tokens, first, list, n, end, k - 1);
            } else if k > n {
                lemma_named_at(tokens, first, names, k, close, n - 1);
                lemma_named_at(tokens, first, names, k, close, n);
            }
        }
    }
}

/// Where the parameters read so far are followed by a comma and by a name
/// that one of them has, no list of parameters of different names is read.
pub proof fn lemma_none_named_twice(
    tokens: Seq<Token>,
    first: int,
    list: Seq<Token>,
    comma: int,
    twin: int,
)
    requires
        named(tokens, first, list, list.len() as int, comma),
        is_at(tokens, comma, TokenType::Comma),
        0 <= twin < list.len(),
        is_at(tokens, comma + 1, TokenType::Identifier),
        tokens[comma + 1].lexeme@ == list[twin].lexeme@,
    ensures
        no_names(tokens, first),
{
    let n = list.len() as int;
    lemma_named_at(tokens, first, list, n, comma, 0);
    lemma_named_at(tokens, first, list, n, comma, twin);
    assert forall|names: Seq<Token>, close: int| #[trigger]
        named(tokens, first, names, names.len() as int, close) && is_at(
            tokens,
            close,
            TokenType::RightParen,
        ) implies names.len() > 255 || !distinct(names) by {
        let k = names.len() as int;
        if k > 0 {
            lemma_named_at(tokens, first, names, k, close, 0);
            if k < n {
                lemma_named_at(tokens, first, list, n, comma, k - 1);
            } else if k > n {
                lemma_named_at(tokens, first, names, k, close, twin);
                lemma_named_at(tokens, first, names, k, close, n);
                assert(names[twin].lexeme@ == names[n].lexeme@);
            }
        }
    }
}

/// Where no name, no parameters in parentheses or no body in braces is
/// read, no function is read.
pub proof fn lemma_none_function(tokens: Seq<Token>, start: int, params: Seq<Token>, close: int)
    requires
        ({
            ||| !is_at(tokens, start, TokenType::Identifier)
            ||| !is_at(tokens, start + 1, TokenType::LeftParen)
            ||| no_names(tokens, start + 2)
            ||| {
                &&& named(tokens, start + 2, params, params.len() as int, close)
                &&& is_at(tokens, close, TokenType::RightParen)
                &&& !is_at(tokens, close + 1, TokenType::LeftBrace) || no_block(tokens, close + 2)
            }
        }),
    ensures
        no_function(tokens, start),
{
    assert forall|s: Stmt, end: int| !#[trigger] function_at(tokens, start, s, end) by {
        if function_at(tokens, start, s, end) {
            let c = lemma_function_parts(tokens, start, s, end);
            if !no_names(tokens, start + 2) && is_at(tokens, start, TokenType::Identifier) && is_at(
                tokens,
                start + 1,
                TokenType::LeftParen,
            ) {
                lemma_names_unique(tokens, start + 2, params, close, s->Function_params@, c);
            }
        }
    }
}

/// Where no name, no superclass after a colon, no opening brace, or
/// neither a method nor a closing brace after the methods read so far is
/// read, no class is read.
pub proof fn lemma_none_class(tokens: Seq<Token>, start: int, list: Seq<Stmt>, mid: int)
    requires
        ({
            let brace = if is_at(tokens, start + 1, TokenType::Colon) {
                start + 3
            } else {
                start + 1
            };
            ||| !is_at(tokens, start, TokenType::Identifier)
            ||| is_at(tokens, start + 1, TokenType::Colon) && !is_at(
                tokens,
                start + 2,
                TokenType::Identifier,
            )
            ||| !is_at(tokens, brace, TokenType::LeftBrace)
            ||| {
                &&& methods_at(tokens, brace + 1, list, list.len() as int, mid)
                &&& !is_at(tokens, mid, TokenType::RightBrace)
                &&& no_function(tokens, mid)
            }
        }),
    ensures
        no_class(tokens, start),
{
    let brace = if is_at(tokens, start + 1, TokenType::Colon) {
        start + 3
    } else {
        start + 1
    };
    assert forall|s: Stmt, end: int| !#[trigger] class_at(tokens, start, s, end) by {
        if class_at(tokens, start, s, end) {
            match s {
                Stmt::Class { name, superclass, methods } => {
                    if methods_at(tokens, brace + 1, list, list.len() as int, mid) && is_at(
                        tokens,
                        brace,
                        TokenType::LeftBrace,
                    ) {
                        let n = list.len() as int;
                        let k = methods@.len() as int;
                        assert(methods_at(tokens, brace + 1, methods@, k, end - 1));
                        if mid <= end - 1 {
                            let w = lemma_methods_unique(
                                tokens,
                                brace + 1,
                                list,
                                n,
                                mid,
                                methods@,
                                k,
                                end - 1,
                            );
                        } else {
                            let w = lemma_methods_unique(
                                tokens,
                                brace + 1,
                                methods@,
                                k,
                                end - 1,
                                list,
                                n,
                                mid,
                            );
                            lemma_function_span(tokens, end - 1, list[k], w);
                        }
                    }
                },
                _ => {},
            }
        }
    }
}

/// No function is read from the end of the tokens on.
pub proof fn lemma_none_function_at_end(tokens: Seq<Token>, start: int)
    requires
        start >= tokens.len(),
    ensures
        no_function(tokens, start),
{
    assert forall|s: Stmt, end: int| !#[trigger] function_at(tokens, start, s, end) by {
        if function_at(tokens, start, s, end) {
            lemma_function_span(tokens, start, s, end);
        }
    }
}

} // verus!
