use vstd::prelude::*;
use crate::expr::Expr;
use crate::grammar::{
    block_at, called_at, class_at, cut, cuts, declaration_at, derives, distinct, for_at, for_loop,
    for_to, function_at, if_at, is_at, lemma_descend, lemma_lift, lemma_listed_prefix,
    lemma_methods_prefix, lemma_named_prefix, lemma_rank, lemma_sequence_prefix,
    lemma_statement_kinds, listed, listed_to, methods_at, methods_to, named, operated_at,
    operation_of, operator_of, sequence_at, sequence_to, set_at, stands_at, statement_at,
    variable_at, while_at, AND, ASSIGNMENT, CALL, COMPARISON, EQUALITY, FACTOR, OR, PRIMARY, TERM,
    UNARY,
};
use crate::dead_ends::{
    begins, closes_none, lemma_closes_none, lemma_closes_other, lemma_none_assigned,
    lemma_none_at_end, lemma_none_block, lemma_none_call, lemma_none_called, lemma_none_class,
    lemma_none_closed, lemma_none_declared, lemma_none_else, lemma_none_expression,
    lemma_none_for_body, lemma_none_for_first, lemma_none_for_second, lemma_none_for_third,
    lemma_none_function, lemma_none_function_at_end, lemma_none_got, lemma_none_grouped,
    lemma_none_if, lemma_none_listed_first, lemma_none_listed_more, lemma_none_listed_next,
    lemma_none_listed_open, lemma_none_named, lemma_none_named_first, lemma_none_named_twice,
    lemma_none_operand, lemma_none_operated, lemma_none_or, lemma_none_primary, lemma_none_print,
    lemma_none_program, lemma_none_return, lemma_none_right, lemma_none_set, lemma_none_started,
    lemma_none_super, lemma_none_unary, lemma_none_variable, lemma_none_while, no_arguments,
    no_block, no_class, no_declaration, no_for, no_function, no_if, no_program, no_statement,
    no_variable, no_while, none_whole,
};
use crate::lexer::{LexError, Lexer};
use crate::stmt::Stmt;
use crate::token::{Literal, Token};
use crate::token_type::TokenType;
use crate::unique::goes_on;

verus! {

/// The kinds of tokens that the parser does not see.
pub open spec fn ignored(kind: TokenType) -> bool {
    kind == TokenType::Comment || kind == TokenType::Whitespace || kind == TokenType::Newline
}

/// Whether the parser does not see tokens of the kind.
pub fn is_ignored(kind: TokenType) -> (r: bool)
    ensures
        r == ignored(kind),
{
    kind == TokenType::Comment || kind == TokenType::Whitespace || kind == TokenType::Newline
}

/// The kinds of tokens that the parser does not see.
pub fn to_ignore() -> (r: Vec<TokenType>)
    ensures
        r@ == seq![TokenType::Comment, TokenType::Whitespace, TokenType::Newline],
{
    let mut v = Vec::new();
    v.push(TokenType::Comment);
    v.push(TokenType::Whitespace);
    v.push(TokenType::Newline);
    v
}

/// The operators of a level of binary operators.
pub fn operators(level: u8) -> (r: Vec<TokenType>)
    ensures
        forall|kind: TokenType| r@.contains(kind) <==> operator_of(level as int, kind),
{
    let r = if level == FACTOR {
        vec![TokenType::Slash, TokenType::Star, TokenType::Rem]
    } else if level == TERM {
        vec![TokenType::Minus, TokenType::Plus]
    } else if level == COMPARISON {
        vec![TokenType::Greater, TokenType::GreaterEqual, TokenType::Less, TokenType::LessEqual]
    } else if level == EQUALITY {
        vec![TokenType::BangEqual, TokenType::EqualEqual]
    } else if level == AND {
        vec![TokenType::And]
    } else if level == OR {
        vec![TokenType::Or]
    } else {
        Vec::new()
    };
    proof {
        assert forall|kind: TokenType| r@.contains(kind) <==> operator_of(level as int, kind) by {
            if operator_of(level as int, kind) {
                if level == FACTOR {
                    assert(r@[0] == TokenType::Slash && r@[1] == TokenType::Star && r@[2]
                        == TokenType::Rem);
                } else if level == TERM {
                    assert(r@[0] == TokenType::Minus && r@[1] == TokenType::Plus);
                } else if level == COMPARISON {
                    assert(r@[0] == TokenType::Greater && r@[1] == TokenType::GreaterEqual && r@[2]
                        == TokenType::Less && r@[3] == TokenType::LessEqual);
                } else if level == EQUALITY {
                    assert(r@[0] == TokenType::BangEqual && r@[1] == TokenType::EqualEqual);
                } else if level == AND {
                    assert(r@[0] == TokenType::And);
                } else {
                    assert(r@[0] == TokenType::Or);
                }
            }
        }
    }
    r
}

/// The most parameters of a function, and the most arguments of a call.
pub const MAX_ARITY: usize = 255;

/// A syntax error: what is wrong, and the line where.
#[derive(Debug)]
pub struct SyntaxError {
    pub msg: String,
    pub line: usize,
}

impl Clone for SyntaxError {
    fn clone(&self) -> (r: Self)
        ensures
            r == *self,
    {
        SyntaxError { msg: self.msg.clone(), line: self.line }
    }
}

impl SyntaxError {
    /// The error as it is shown: the line in brackets, then the message.
    pub open spec fn shown(&self) -> Seq<char> {
        "[line "@ + crate::builtins::integer::digits(self.line as nat) + "] "@ + self.msg@
    }

    /// The error as it is shown.
    pub fn repr(&self) -> (r: String)
        ensures
            r@ == self.shown(),
    {
        let mut s = String::from_str("[line ");
        crate::builtins::integer::append_digits(&mut s, self.line as u64);
        s.append("] ");
        s.append(self.msg.as_str());
        s
    }
}

/// The kinds of tokens that a statement starts with, where the parser takes
/// up its work after an error.
pub open spec fn starts_statement(kind: TokenType) -> bool {
    kind == TokenType::Class || kind == TokenType::Def || kind == TokenType::Let || kind
        == TokenType::For || kind == TokenType::If || kind == TokenType::While || kind
        == TokenType::Print || kind == TokenType::Return
}

/// After an error the parser takes up its work at the index: it is the end of
/// the tokens, or the token before it is a semicolon, or the token at it
/// starts a statement.
pub open spec fn resumes_at(tokens: Seq<Token>, at: int) -> bool {
    ||| at >= tokens.len()
    ||| is_at(tokens, at - 1, TokenType::Semi)
    ||| (0 <= at < tokens.len() && starts_statement(tokens[at].token_type))
}

/// A recursive-descent parser over the tokens of a program.
///
/// `tokens` are the tokens that the parser sees: blanks, line feeds, comments
/// and the end token are left out. `current` is the index of the next token.
pub struct Parser {
    pub tokens: Vec<Token>,
    pub current: usize,
}

/// The message of an error at a token.
pub open spec fn error_text(lexeme: Seq<char>, message: Seq<char>) -> Seq<char> {
    "Error at '"@ + lexeme + "': "@ + message
}

/// An error at the token, on the token's line.
pub fn error_at(token: &Token, message: &str) -> (r: SyntaxError)
    ensures
        r.msg@ == error_text(token.lexeme@, message@),
        r.line == token.line,
{
    let mut msg = String::from_str("Error at '");
    msg.append(token.lexeme.as_str());
    msg.append("': ");
    msg.append(message);
    SyntaxError { msg, line: token.line }
}

/// One of the tokens has the text: the index of the first that has it.
pub fn find_name(tokens: &Vec<Token>, name: &String) -> (r: Option<usize>)
    ensures
        match r {
            Some(i) => i < tokens@.len() && tokens@[i as int].lexeme@ == name@,
            None => forall|i: int| 0 <= i < tokens@.len() ==> (#[trigger] tokens@[i]).lexeme@ != name@,
        },
{
    let mut i: usize = 0;
    while i < tokens.len()
        invariant
            i <= tokens.len(),
            forall|j: int| 0 <= j < i ==> (#[trigger] tokens@[j]).lexeme@ != name@,
        decreases tokens.len() - i,
    {
        if tokens[i].lexeme == *name {
            return Some(i);
        }
        i += 1;
    }
    None
}

impl Parser {
    /// The position is within the tokens.
    pub open spec fn wf(&self) -> bool {
        self.current <= self.tokens@.len()
    }

    /// The tokens that are left.
    pub open spec fn remaining(&self) -> nat {
        (self.tokens@.len() - self.current) as nat
    }

    /// The parser has moved on from `before`, or stands where it stood, over
    /// the same tokens.
    pub open spec fn after(&self, before: &Self) -> bool {
        &&& self.wf()
        &&& self.tokens == before.tokens
        &&& self.current >= before.current
    }

    /// The text of the next token, or `eof` at the end.
    pub open spec fn next_text(&self) -> Seq<char> {
        if self.current < self.tokens@.len() {
            self.tokens@[self.current as int].lexeme@
        } else {
            "eof"@
        }
    }

    /// The line of the token before the next, or of the next at the start, or
    /// the first line without tokens.
    pub open spec fn near_line(&self) -> usize {
        if 0 < self.current <= self.tokens@.len() {
            self.tokens@[self.current - 1].line
        } else if self.current < self.tokens@.len() {
            self.tokens@[self.current as int].line
        } else {
            1
        }
    }

    /// A parser over the tokens that the lexer gives from its position on.
    pub fn new(tokens: Lexer) -> (r: Self)
        requires
            tokens.wf(),
            !tokens.finished(),
        ensures
            r.wf(),
            r.current == 0,
            r.tokens@.map_values(|t: Token| t@) == crate::lexer::tokens_from(
                tokens.text(),
                tokens.position(),
                tokens.line_number(),
                tokens.number(),
            ).filter(|t: crate::token::TokenView| !ignored(t.token_type)),
    {
        let all = tokens.collect();
        let mut seen: Vec<Token> = Vec::new();
        let mut i: usize = 0;
        let ghost views = all@.map_values(|t: Token| t@);
        let ghost keep = |t: crate::token::TokenView| !ignored(t.token_type);
        while i < all.len()
            invariant
                i <= all.len(),
                views == all@.map_values(|t: Token| t@),
                keep == |t: crate::token::TokenView| !ignored(t.token_type),
                seen@.map_values(|t: Token| t@) == views.take(i as int).filter(keep),
            decreases all.len() - i,
        {
            proof {
                reveal(Seq::filter);
                assert(views.take(i + 1).drop_last() =~= views.take(i as int));
                assert(views.take(i + 1).last() == views[i as int]);
            }
            if !is_ignored(all[i].token_type) {
                let ghost before = seen@.map_values(|t: Token| t@);
                seen.push(all[i].clone());
                assert(seen@.map_values(|t: Token| t@) =~= before.push(views[i as int]));
            }
            i += 1;
        }
        assert(views.take(all.len() as int) =~= views);
        Parser { tokens: seen, current: 0 }
    }

    /// Whether no token is left.
    pub fn at_end(&self) -> (r: bool)
        ensures
            r == (self.current >= self.tokens@.len()),
    {
        self.current >= self.tokens.len()
    }

    /// Whether the next token is of the kind.
    pub fn check(&self, token_type: TokenType) -> (r: bool)
        ensures
            r == (self.current < self.tokens@.len() && self.tokens@[self.current as int].token_type
                == token_type),
    {
        self.current < self.tokens.len() && self.tokens[self.current].token_type == token_type
    }

    /// Steps over the next token, and gives it.
    pub fn advance(&mut self) -> (r: Option<Token>)
        requires
            old(self).wf(),
        ensures
            final(self).after(old(self)),
            old(self).current < old(self).tokens@.len() ==> r == Some(
                old(self).tokens@[old(self).current as int],
            ) && final(self).current == old(self).current + 1,
            old(self).current >= old(self).tokens@.len() ==> r is None && final(self).current
                == old(self).current,
    {
        if self.current < self.tokens.len() {
            let token = self.tokens[self.current].clone();
            self.current += 1;
            Some(token)
        } else {
            None
        }
    }

    /// The token before the next. The parser has stepped over a token.
    pub fn previous(&self) -> (r: Token)
        requires
            self.wf(),
            self.current > 0,
        ensures
            r == self.tokens@[self.current - 1],
    {
        self.tokens[self.current - 1].clone()
    }

    /// Steps over the next token if it is of the kind.
    pub fn match_one(&mut self, token_type: TokenType) -> (r: bool)
        requires
            old(self).wf(),
        ensures
            final(self).after(old(self)),
            r == old(self).check_spec(token_type),
            final(self).current == old(self).current + if r {
                1int
            } else {
                0int
            },
    {
        if self.current < self.tokens.len() && self.tokens[self.current].token_type == token_type {
            self.current += 1;
            true
        } else {
            false
        }
    }

    /// The next token is of the kind.
    pub open spec fn check_spec(&self, token_type: TokenType) -> bool {
        self.current < self.tokens@.len() && self.tokens@[self.current as int].token_type
            == token_type
    }

    /// The message of an error at the next token: what the lexer found wrong
    /// where the token is an error token, and what the parser expected
    /// otherwise.
    pub open spec fn error_message(&self, expected: Seq<char>) -> Seq<char> {
        error_text(
            self.next_text(),
            if self.current < self.tokens@.len() && self.tokens@[self.current as int].token_type
                == TokenType::Error && self.tokens@[self.current as int].literal is String {
                self.tokens@[self.current as int].literal->String_0@
            } else {
                expected
            },
        )
    }

    /// An error at the next token, on the line of the token before it.
    pub fn error_here(&self, message: &str) -> (r: SyntaxError)
        requires
            self.wf(),
        ensures
            r.msg@ == self.error_message(message@),
            r.line == self.near_line(),
    {
        let mut msg = String::from_str("Error at '");
        let mut found: Option<LexError> = None;
        if self.current < self.tokens.len() {
            msg.append(self.tokens[self.current].lexeme.as_str());
            found = LexError::of(&self.tokens[self.current]);
        } else {
            msg.append("eof");
        }
        msg.append("': ");
        match found {
            Some(e) => {
                msg.append(e.msg().as_str());
            },
            None => {
                msg.append(message);
            },
        }
        let line = if self.current > 0 {
            self.tokens[self.current - 1].line
        } else if self.current < self.tokens.len() {
            self.tokens[self.current].line
        } else {
            1
        };
        SyntaxError { msg, line }
    }

    /// Steps over the next token, which must be of the kind: the token where
    /// it is, else an error with the message.
    pub fn consume(&mut self, token_type: TokenType, message: &str) -> (r: Result<
        Token,
        SyntaxError,
    >)
        requires
            old(self).wf(),
        ensures
            final(self).after(old(self)),
            match r {
                Ok(token) => {
                    &&& old(self).check_spec(token_type)
                    &&& token == old(self).tokens@[old(self).current as int]
                    &&& final(self).current == old(self).current + 1
                },
                Err(e) => {
                    &&& !old(self).check_spec(token_type)
                    &&& final(self).current == old(self).current
                    &&& e.msg@ == old(self).error_message(message@)
                    &&& e.line == old(self).near_line()
                },
            },
    {
        if self.current < self.tokens.len() && self.tokens[self.current].token_type == token_type {
            let token = self.tokens[self.current].clone();
            self.current += 1;
            Ok(token)
        } else {
            Err(self.error_here(message))
        }
    }

    /// After an error: steps over one token, and on to the first index where
    /// the parser takes up its work.
    pub fn synchronize(&mut self)
        requires
            old(self).wf(),
        ensures
            final(self).after(old(self)),
            old(self).current >= old(self).tokens@.len() ==> final(self).current == old(self).current,
            old(self).current < old(self).tokens@.len() ==> {
                &&& final(self).current > old(self).current
                &&& resumes_at(final(self).tokens@, final(self).current as int)
                &&& forall|at: int|
                    old(self).current < at < final(self).current ==> !resumes_at(final(self).tokens@, at)
            },
    {
        if self.current >= self.tokens.len() {
            return ;
        }
        self.current += 1;
        while self.current < self.tokens.len()
            invariant
                self.tokens == old(self).tokens,
                old(self).current < self.current <= self.tokens@.len(),
                forall|at: int| old(self).current < at < self.current ==> !resumes_at(self.tokens@, at),
            decreases self.tokens@.len() - self.current,
        {
            if self.tokens[self.current - 1].token_type == TokenType::Semi {
                return ;
            }
            let kind = self.tokens[self.current].token_type;
            if kind == TokenType::Class || kind == TokenType::Def || kind == TokenType::Let || kind
                == TokenType::For || kind == TokenType::If || kind == TokenType::While || kind
                == TokenType::Print || kind == TokenType::Return {
                return ;
            }
            assert(!resumes_at(self.tokens@, self.current as int));
            self.current += 1;
        }
    }

    /// The next token is of one of the kinds.
    pub open spec fn check_any(&self, token_types: Seq<TokenType>) -> bool {
        self.current < self.tokens@.len() && token_types.contains(
            self.tokens@[self.current as int].token_type,
        )
    }

    /// Steps over the next token if it is of one of the kinds.
    pub fn match_token(&mut self, token_types: Vec<TokenType>) -> (r: bool)
        requires
            old(self).wf(),
        ensures
            final(self).after(old(self)),
            r == old(self).check_any(token_types@),
            final(self).current == old(self).current + if r {
                1int
            } else {
                0int
            },
    {
        if self.current >= self.tokens.len() {
            return false;
        }
        let kind = self.tokens[self.current].token_type;
        let n = self.tokens.len();
        let mut i: usize = 0;
        while i < token_types.len()
            invariant
                i <= token_types.len(),
                self.tokens == old(self).tokens,
                self.current == old(self).current,
                n == self.tokens@.len(),
                self.current < n,
                kind == self.tokens@[self.current as int].token_type,
                forall|j: int| 0 <= j < i ==> token_types@[j] != kind,
            decreases token_types.len() - i,
        {
            if token_types[i] == kind {
                self.current += 1;
                return true;
            }
            i += 1;
        }
        false
    }

    /// Parses the program: its statements, or the syntax errors found. After
    /// an error the parser goes on with the next statement. There are
    /// errors if and only if the tokens are no program.
    pub fn parse(&mut self) -> (r: Result<Vec<Stmt>, Vec<SyntaxError>>)
        requires
            old(self).wf(),
        ensures
            final(self).after(old(self)),
            final(self).current == final(self).tokens@.len(),
            match r {
                Ok(statements) => sequence_at(
                    final(self).tokens@,
                    old(self).current as int,
                    statements@,
                    statements@.len() as int,
                    final(self).tokens@.len() as int,
                ),
                Err(errors) => errors@.len() > 0 && no_program(
                    final(self).tokens@,
                    old(self).current as int,
                ),
            },
            old(self).current == old(self).tokens@.len() ==> r is Ok && r->Ok_0@.len() == 0,
    {
        let mut statements: Vec<Stmt> = Vec::new();
        let mut errors: Vec<SyntaxError> = Vec::new();
        let ghost tokens = self.tokens@;
        let ghost start = self.current as int;
        while !self.at_end()
            invariant
                self.after(old(self)),
                tokens == self.tokens@,
                start == old(self).current,
                old(self).current == old(self).tokens@.len() ==> statements@.len() == 0
                    && errors@.len() == 0,
                errors@.len() == 0 ==> sequence_at(
                    tokens,
                    start,
                    statements@,
                    statements@.len() as int,
                    self.current as int,
                ),
                errors@.len() > 0 ==> no_program(tokens, start),
            decreases self.remaining(),
        {
            let ghost mid = self.current as int;
            let ghost sofar = statements@;
            match self.declaration() {
                Ok(stmt) => {
                    statements.push(stmt);
                    proof {
                        if errors@.len() == 0 {
                            lemma_sequence_prefix(
                                tokens,
                                start,
                                sofar,
                                statements@,
                                sofar.len() as int,
                                mid,
                            );
                            assert(cut(mid) && sequence_to(
                                tokens,
                                start,
                                statements@,
                                statements@.len() as int,
                                mid,
                                self.current as int,
                            ));
                        }
                    }
                },
                Err(e) => {
                    proof {
                        if errors@.len() == 0 {
                            lemma_none_program(tokens, start, sofar, mid);
                        }
                    }
                    errors.push(e);
                },
            }
        }
        if errors.len() == 0 {
            Ok(statements)
        } else {
            Err(errors)
        }
    }

    /// A declaration: a class, a function or a variable, or a statement. An
    /// error, which means that no declaration is read, is followed by
    /// synchronization.
    pub fn declaration(&mut self) -> (r: Result<Stmt, SyntaxError>)
        requires
            old(self).wf(),
        ensures
            final(self).after(old(self)),
            r matches Ok(s) ==> final(self).current > old(self).current && declaration_at(
                final(self).tokens@,
                old(self).current as int,
                s,
                final(self).current as int,
            ),
            r is Err && old(self).current < old(self).tokens@.len() ==> final(self).current
                > old(self).current,
            r is Err ==> no_declaration(final(self).tokens@, old(self).current as int),
        decreases old(self).remaining(), 22int,
    {
        let ghost start = self.current as int;
        let ghost tokens = self.tokens@;
        let val = if self.match_one(TokenType::Class) {
            self.class_declaration()
        } else if self.match_one(TokenType::Def) {
            self.function()
        } else if self.match_one(TokenType::Let) {
            self.var_declaration()
        } else {
            let r = self.statement();
            proof {
                if r is Ok {
                    lemma_statement_kinds(
                        self.tokens@,
                        old(self).current as int,
                        r->Ok_0,
                        self.current as int,
                    );
                }
            }
            r
        };
        match val {
            Ok(stmt) => Ok(stmt),
            Err(e) => {
                proof {
                    lemma_none_declared(tokens, start);
                }
                self.synchronize();
                Err(e)
            },
        }
    }

    /// A class declaration, after the keyword: the name, the superclass after
    /// a colon if there is one, and the methods in braces. An error means
    /// that no class is read.
    pub fn class_declaration(&mut self) -> (r: Result<Stmt, SyntaxError>)
        requires
            old(self).wf(),
        ensures
            final(self).after(old(self)),
            r matches Ok(s) ==> final(self).current > old(self).current && s is Class && class_at(
                final(self).tokens@,
                old(self).current as int,
                s,
                final(self).current as int,
            ),
            r is Err ==> no_class(final(self).tokens@, old(self).current as int),
        decreases old(self).remaining(), 7int,
    {
        let ghost tokens = self.tokens@;
        let ghost start = self.current as int;
        let named = self.consume(TokenType::Identifier, "Expect a class name.");
        proof {
            if named is Err {
                lemma_none_class(tokens, start, Seq::empty(), 0);
            }
        }
        let name = named?;
        let mut super_class: Option<Expr> = None;
        if self.match_one(TokenType::Colon) {
            let above = self.consume(TokenType::Identifier, "Expect a superclass name.");
            proof {
                if above is Err {
                    lemma_none_class(tokens, start, Seq::empty(), 0);
                }
            }
            let parent = above?;
            super_class = Some(Expr::Variable { name: parent });
        }
        let opened = self.consume(TokenType::LeftBrace, "Expect '{' before class body.");
        proof {
            if opened is Err {
                lemma_none_class(tokens, start, Seq::empty(), 0);
            }
        }
        let _ = opened?;
        let ghost first = self.current as int;
        let mut methods: Vec<Stmt> = Vec::new();
        while !self.check(TokenType::RightBrace) && !self.at_end()
            invariant
                self.after(old(self)),
                self.current > old(self).current,
                tokens == self.tokens@,
                start == old(self).current,
                first == if is_at(tokens, start + 1, TokenType::Colon) {
                    start + 4
                } else {
                    start + 2
                },
                is_at(tokens, start, TokenType::Identifier),
                is_at(tokens, first - 1, TokenType::LeftBrace),
                methods_at(tokens, first, methods@, methods@.len() as int, self.current as int),
            decreases self.remaining(),
        {
            let ghost mid = self.current as int;
            let ghost sofar = methods@;
            let read = self.function();
            proof {
                if read is Err {
                    lemma_none_class(tokens, start, sofar, mid);
                }
            }
            let method = read?;
            methods.push(method);
            proof {
                lemma_methods_prefix(tokens, first, sofar, methods@, sofar.len() as int, mid);
                assert(cut(mid) && methods_to(
                    tokens,
                    first,
                    methods@,
                    methods@.len() as int,
                    mid,
                    self.current as int,
                ));
            }
        }
        let closed = self.consume(TokenType::RightBrace, "Expect '}' after class body.");
        proof {
            if closed is Err {
                lemma_none_function_at_end(tokens, self.current as int);
                lemma_none_class(tokens, start, methods@, self.current as int);
            }
        }
        let _ = closed?;
        Ok(Stmt::Class { name, methods, superclass: super_class })
    }

    /// A function or a method, after the keyword if there is one: the name,
    /// the parameters in parentheses, no more than 255 of them and no two of
    /// the same name, and the body in braces. An error means that no
    /// function is read.
    pub fn function(&mut self) -> (r: Result<Stmt, SyntaxError>)
        requires
            old(self).wf(),
        ensures
            final(self).after(old(self)),
            r matches Ok(s) ==> final(self).current > old(self).current && s is Function
                && function_at(
                final(self).tokens@,
                old(self).current as int,
                s,
                final(self).current as int,
            ),
            r is Err ==> no_function(final(self).tokens@, old(self).current as int),
        decreases old(self).remaining(), 6int,
    {
        let ghost tokens = self.tokens@;
        let ghost start = self.current as int;
        let called = self.consume(TokenType::Identifier, "Expect function name.");
        proof {
            if called is Err {
                lemma_none_function(tokens, start, Seq::empty(), 0);
            }
        }
        let name = called?;
        let opened = self.consume(TokenType::LeftParen, "Expect '(' after function name.");
        proof {
            if opened is Err {
                lemma_none_function(tokens, start, Seq::empty(), 0);
            }
        }
        let _ = opened?;
        let ghost first = self.current as int;
        let mut params: Vec<Token> = Vec::new();
        let mut more = !self.check(TokenType::RightParen);
        while more
            invariant
                self.after(old(self)),
                self.current > old(self).current,
                tokens == self.tokens@,
                start == old(self).current,
                first == start + 2,
                params@.len() <= MAX_ARITY,
                distinct(params@),
                more && params@.len() == 0 ==> self.current == first && !is_at(
                    tokens,
                    first,
                    TokenType::RightParen,
                ),
                more && params@.len() > 0 ==> named(
                    tokens,
                    first,
                    params@,
                    params@.len() as int,
                    self.current - 1,
                ) && is_at(tokens, self.current - 1, TokenType::Comma),
                !more ==> named(tokens, first, params@, params@.len() as int, self.current as int),
                !more && params@.len() == 0 ==> is_at(
                    tokens,
                    self.current as int,
                    TokenType::RightParen,
                ),
                !more && params@.len() > 0 ==> !is_at(tokens, self.current as int, TokenType::Comma),
            decreases self.remaining() + if more {
                1nat
            } else {
                0nat
            },
        {
            if params.len() >= MAX_ARITY {
                proof {
                    lemma_none_named(tokens, first, params@, self.current - 1);
                    lemma_none_function(tokens, start, Seq::empty(), 0);
                }
                let mut e = self.error_here("Can't have more than 255 parameters.");
                e.line = name.line;
                return Err(e);
            }
            let ghost listed_before = params@;
            let next = self.consume(TokenType::Identifier, "Expect parameter name.");
            proof {
                if next is Err {
                    if listed_before.len() == 0 {
                        lemma_none_named_first(tokens, first);
                    } else {
                        lemma_none_named(tokens, first, listed_before, self.current - 1);
                    }
                    lemma_none_function(tokens, start, Seq::empty(), 0);
                }
            }
            let param = next?;
            match find_name(&params, &param.lexeme) {
                Some(twin) => {
                    proof {
                        lemma_none_named_twice(
                            tokens,
                            first,
                            listed_before,
                            self.current - 2,
                            twin as int,
                        );
                        lemma_none_function(tokens, start, Seq::empty(), 0);
                    }
                    return Err(error_at(&param, "Duplicate parameter name."));
                },
                None => {},
            }
            params.push(param);
            proof {
                let count = params@.len() as int;
                if count > 1 {
                    lemma_named_prefix(
                        tokens,
                        first,
                        listed_before,
                        params@,
                        count - 1,
                        self.current - 2,
                    );
                }
            }
            more = self.match_one(TokenType::Comma);
        }
        let ghost close = self.current as int;
        let closed = self.consume(TokenType::RightParen, "Expect ')' after function parameters.");
        proof {
            if closed is Err {
                lemma_none_named(tokens, first, params@, close);
                lemma_none_function(tokens, start, Seq::empty(), 0);
            }
        }
        let _ = closed?;
        let braced = self.consume(TokenType::LeftBrace, "Expect '{' before function body.");
        proof {
            if braced is Err {
                lemma_none_function(tokens, start, params@, close);
            }
        }
        let _ = braced?;
        let read = self.block();
        proof {
            if read is Err {
                lemma_none_function(tokens, start, params@, close);
            }
        }
        let body = read?;
        proof {
            assert(cut(close));
        }
        Ok(Stmt::Function { name, params, body })
    }

    /// A variable declaration, after the keyword: the name, an initializer
    /// after `=` if there is one, and a semicolon. An error means that no
    /// variable declaration is read.
    pub fn var_declaration(&mut self) -> (r: Result<Stmt, SyntaxError>)
        requires
            old(self).wf(),
        ensures
            final(self).after(old(self)),
            r matches Ok(s) ==> final(self).current > old(self).current && s is Var && variable_at(
                final(self).tokens@,
                old(self).current as int,
                s,
                final(self).current as int,
            ),
            r is Err ==> no_variable(final(self).tokens@, old(self).current as int),
        decreases old(self).remaining(), 5int,
    {
        let ghost tokens = self.tokens@;
        let ghost start = self.current as int;
        let named = self.consume(TokenType::Identifier, "Expect variable name.");
        proof {
            if named is Err {
                lemma_none_variable(tokens, start);
            }
        }
        let name = named?;
        let mut initializer: Option<Expr> = None;
        if self.match_one(TokenType::Equal) {
            let value = self.expression();
            proof {
                if value is Err {
                    lemma_closes_none(tokens, start + 2, TokenType::Semi);
                    lemma_none_variable(tokens, start);
                }
            }
            initializer = Some(value?);
        }
        let ended = self.consume(TokenType::Semi, "Expect ';' after variable declaration.");
        proof {
            if ended is Err {
                if initializer is Some {
                    lemma_closes_other(
                        tokens,
                        start + 2,
                        initializer->Some_0,
                        self.current as int,
                        TokenType::Semi,
                    );
                }
                lemma_none_variable(tokens, start);
            }
        }
        let _ = ended?;
        Ok(Stmt::Var { name, initializer })
    }

    /// A statement. An error means that no statement is read.
    pub fn statement(&mut self) -> (r: Result<Stmt, SyntaxError>)
        requires
            old(self).wf(),
        ensures
            final(self).after(old(self)),
            r matches Ok(s) ==> final(self).current > old(self).current && statement_at(
                final(self).tokens@,
                old(self).current as int,
                s,
                final(self).current as int,
            ),
            r is Err ==> no_statement(final(self).tokens@, old(self).current as int),
        decreases old(self).remaining(), 20int,
    {
        let ghost tokens = self.tokens@;
        let ghost start = self.current as int;
        if self.match_one(TokenType::For) {
            let r = self.for_statement();
            proof {
                if r is Err {
                    lemma_none_started(tokens, start);
                }
            }
            return r;
        }
        if self.match_one(TokenType::If) {
            let r = self.if_statement();
            proof {
                if r is Err {
                    lemma_none_started(tokens, start);
                }
            }
            return r;
        }
        if self.match_one(TokenType::While) {
            let r = self.while_statement();
            proof {
                if r is Err {
                    lemma_none_started(tokens, start);
                }
            }
            return r;
        }
        if self.match_one(TokenType::Print) {
            return self.print_statement();
        }
        if self.match_one(TokenType::Return) {
            return self.return_statement();
        }
        if self.match_one(TokenType::LeftBrace) {
            let read = self.block();
            proof {
                if read is Err {
                    lemma_none_started(tokens, start);
                }
            }
            let statements = read?;
            return Ok(Stmt::Block(statements));
        }
        let r = self.expression_statement();
        proof {
            if r is Err {
                lemma_none_expression(tokens, start);
            }
        }
        r
    }

    /// A `return`, after the keyword: a value if there is one, and a
    /// semicolon. An error means that no statement is read from the keyword
    /// on.
    pub fn return_statement(&mut self) -> (r: Result<Stmt, SyntaxError>)
        requires
            old(self).wf(),
            old(self).current > 0,
            is_at(old(self).tokens@, old(self).current - 1, TokenType::Return),
        ensures
            final(self).after(old(self)),
            r matches Ok(s) ==> final(self).current > old(self).current && s is Return
                && statement_at(
                final(self).tokens@,
                old(self).current - 1,
                s,
                final(self).current as int,
            ),
            r is Err ==> no_statement(final(self).tokens@, old(self).current - 1),
        decreases old(self).remaining(), 19int,
    {
        let ghost tokens = self.tokens@;
        let ghost start = self.current as int;
        let keyword = self.previous();
        let mut value: Option<Expr> = None;
        if !self.check(TokenType::Semi) {
            let read = self.expression();
            proof {
                if read is Err {
                    lemma_closes_none(tokens, start, TokenType::Semi);
                    lemma_none_return(tokens, start - 1);
                }
            }
            value = Some(read?);
        }
        let ended = self.consume(TokenType::Semi, "Expect ';' after return value.");
        proof {
            if ended is Err {
                if value is Some {
                    lemma_closes_other(
                        tokens,
                        start,
                        value->Some_0,
                        self.current as int,
                        TokenType::Semi,
                    );
                    lemma_none_return(tokens, start - 1);
                }
            }
        }
        let _ = ended?;
        Ok(Stmt::Return { keyword, value })
    }

    /// A `for` loop, after the keyword, written as a `while` loop: the
    /// increment follows the body in a block, a missing condition is `true`,
    /// and the initializer stands before the loop in a block around both. An
    /// error means that no `for` loop is read.
    pub fn for_statement(&mut self) -> (r: Result<Stmt, SyntaxError>)
        requires
            old(self).wf(),
        ensures
            final(self).after(old(self)),
            r matches Ok(s) ==> final(self).current > old(self).current && for_at(
                final(self).tokens@,
                old(self).current as int,
                s,
                final(self).current as int,
            ),
            r is Err ==> no_for(final(self).tokens@, old(self).current as int),
        decreases old(self).remaining(), 4int,
    {
        let ghost tokens = self.tokens@;
        let ghost start = self.current as int;
        let opened = self.consume(TokenType::LeftParen, "Expect '(' after 'for'.");
        proof {
            if opened is Err {
                lemma_none_for_first(tokens, start);
            }
        }
        let _ = opened?;
        let initializer: Option<Stmt>;
        if self.match_one(TokenType::Semi) {
            initializer = None;
        } else if self.match_one(TokenType::Let) {
            let declared = self.var_declaration();
            proof {
                if declared is Err {
                    lemma_none_for_first(tokens, start);
                }
            }
            initializer = Some(declared?);
        } else {
            let read = self.expression_statement();
            proof {
                if read is Err {
                    lemma_none_for_first(tokens, start);
                }
            }
            initializer = Some(read?);
        }
        let ghost first = self.current as int;
        let ghost begun = initializer;
        proof {
            assert(begins(tokens, start, begun, first));
        }
        let mut condition: Option<Expr> = None;
        if !self.check(TokenType::Semi) {
            let read = self.expression();
            proof {
                if read is Err {
                    lemma_closes_none(tokens, first, TokenType::Semi);
                    lemma_none_for_second(tokens, start, begun, first);
                }
            }
            condition = Some(read?);
        }
        let ghost second = self.current as int;
        let ended = self.consume(TokenType::Semi, "Expect ';' after loop condition.");
        proof {
            if ended is Err {
                if condition is Some {
                    lemma_closes_other(tokens, first, condition->Some_0, second, TokenType::Semi);
                    lemma_none_for_second(tokens, start, begun, first);
                }
            }
        }
        let _ = ended?;
        let ghost test = condition;
        let mut increment: Option<Expr> = None;
        if !self.check(TokenType::RightParen) {
            let read = self.expression();
            proof {
                if read is Err {
                    lemma_closes_none(tokens, second + 1, TokenType::RightParen);
                    lemma_none_for_third(tokens, start, begun, first, test, second);
                }
            }
            increment = Some(read?);
        }
        let ghost close = self.current as int;
        let closed = self.consume(TokenType::RightParen, "Expect ')' after for clauses.");
        proof {
            if closed is Err {
                if increment is Some {
                    lemma_closes_other(
                        tokens,
                        second + 1,
                        increment->Some_0,
                        close,
                        TokenType::RightParen,
                    );
                    lemma_none_for_third(tokens, start, begun, first, test, second);
                }
            }
        }
        let _ = closed?;
        let ghost step = increment;
        let read = self.statement();
        proof {
            if read is Err {
                lemma_none_for_body(tokens, start, begun, first, test, second, step, close);
            }
        }
        let mut body = read?;
        let ghost end = self.current as int;
        match increment {
            Some(inc) => {
                let mut stmts: Vec<Stmt> = Vec::new();
                stmts.push(body);
                stmts.push(Stmt::Expression(inc));
                body = Stmt::Block(stmts);
            },
            None => {},
        }
        let test = match condition {
            Some(c) => c,
            None => Expr::Literal { value: Literal::Boolean(true) },
        };
        proof {
            assert(for_loop(tokens, test, body, first, second, close, end));
        }
        body = Stmt::While { condition: test, body: Box::new(body) };
        match initializer {
            Some(init) => {
                let mut stmts: Vec<Stmt> = Vec::new();
                stmts.push(init);
                stmts.push(body);
                body = Stmt::Block(stmts);
            },
            None => {},
        }
        proof {
            assert(cuts(first, second, close) && for_to(
                tokens,
                start,
                body,
                first,
                second,
                close,
                end,
            ));
        }
        Ok(body)
    }

    /// A `while` loop, after the keyword. An error means that no `while`
    /// loop is read.
    pub fn while_statement(&mut self) -> (r: Result<Stmt, SyntaxError>)
        requires
            old(self).wf(),
        ensures
            final(self).after(old(self)),
            r matches Ok(s) ==> final(self).current > old(self).current && s is While && while_at(
                final(self).tokens@,
                old(self).current as int,
                s,
                final(self).current as int,
            ),
            r is Err ==> no_while(final(self).tokens@, old(self).current as int),
        decreases old(self).remaining(), 3int,
    {
        let ghost tokens = self.tokens@;
        let ghost start = self.current as int;
        let ghost nothing = Expr::Literal { value: Literal::Nil };
        let opened = self.consume(TokenType::LeftParen, "Expect '(' after 'while'.");
        proof {
            if opened is Err {
                lemma_none_while(tokens, start, nothing, 0);
            }
        }
        let _ = opened?;
        let tested = self.expression();
        proof {
            if tested is Err {
                lemma_closes_none(tokens, start + 1, TokenType::RightParen);
                lemma_none_while(tokens, start, nothing, 0);
            }
        }
        let condition = tested?;
        let ghost close = self.current as int;
        let closed = self.consume(TokenType::RightParen, "Expect ')' after 'while' condition.");
        proof {
            if closed is Err {
                lemma_closes_other(tokens, start + 1, condition, close, TokenType::RightParen);
                lemma_none_while(tokens, start, nothing, 0);
            }
        }
        let _ = closed?;
        let read = self.statement();
        proof {
            if read is Err {
                lemma_none_while(tokens, start, condition, close);
            }
        }
        let body = read?;
        proof {
            assert(cut(close));
        }
        Ok(Stmt::While { condition, body: Box::new(body) })
    }

    /// An `if`, after the keyword, with its `else` if there is one. An
    /// error means that no `if` statement is read.
    pub fn if_statement(&mut self) -> (r: Result<Stmt, SyntaxError>)
        requires
            old(self).wf(),
        ensures
            final(self).after(old(self)),
            r matches Ok(s) ==> final(self).current > old(self).current && s is If && if_at(
                final(self).tokens@,
                old(self).current as int,
                s,
                final(self).current as int,
            ),
            r is Err ==> no_if(final(self).tokens@, old(self).current as int),
        decreases old(self).remaining(), 2int,
    {
        let ghost tokens = self.tokens@;
        let ghost start = self.current as int;
        let ghost nothing = Expr::Literal { value: Literal::Nil };
        let opened = self.consume(TokenType::LeftParen, "Expect '(' after 'if'.");
        proof {
            if opened is Err {
                lemma_none_if(tokens, start, nothing, 0);
            }
        }
        let _ = opened?;
        let tested = self.expression();
        proof {
            if tested is Err {
                lemma_closes_none(tokens, start + 1, TokenType::RightParen);
                lemma_none_if(tokens, start, nothing, 0);
            }
        }
        let condition = tested?;
        let ghost close = self.current as int;
        let closed = self.consume(TokenType::RightParen, "Expect ')' after 'if' condition.");
        proof {
            if closed is Err {
                lemma_closes_other(tokens, start + 1, condition, close, TokenType::RightParen);
                lemma_none_if(tokens, start, nothing, 0);
            }
        }
        let _ = closed?;
        let read = self.statement();
        proof {
            if read is Err {
                lemma_none_if(tokens, start, condition, close);
            }
        }
        let then_branch = read?;
        let ghost other = self.current as int;
        let mut else_branch: Option<Stmt> = None;
        if self.match_one(TokenType::Else) {
            let read = self.statement();
            proof {
                if read is Err {
                    lemma_none_else(tokens, start, condition, close, then_branch, other);
                }
            }
            else_branch = Some(read?);
        }
        proof {
            assert(cuts(close, other, self.current as int));
        }
        Ok(
            Stmt::If {
                condition,
                then_branch: Box::new(then_branch),
                else_branch: Box::new(else_branch),
            },
        )
    }

    /// An expression and a semicolon. An error means that no expression
    /// that ends before a semicolon is read.
    pub fn expression_statement(&mut self) -> (r: Result<Stmt, SyntaxError>)
        requires
            old(self).wf(),
        ensures
            final(self).after(old(self)),
            r matches Ok(s) ==> {
                &&& final(self).current > old(self).current
                &&& s matches Stmt::Expression(e)
                &&& derives(
                    final(self).tokens@,
                    ASSIGNMENT as int,
                    old(self).current as int,
                    e,
                    final(self).current - 1,
                )
                &&& is_at(final(self).tokens@, final(self).current - 1, TokenType::Semi)
            },
            r is Err ==> closes_none(
                final(self).tokens@,
                old(self).current as int,
                TokenType::Semi,
            ),
        decreases old(self).remaining(), 19int,
    {
        let ghost tokens = self.tokens@;
        let ghost start = self.current as int;
        let read = self.expression();
        proof {
            if read is Err {
                lemma_closes_none(tokens, start, TokenType::Semi);
            }
        }
        let expr = read?;
        let ended = self.consume(TokenType::Semi, "Expect ';' after expression.");
        proof {
            if ended is Err {
                lemma_closes_other(tokens, start, expr, self.current as int, TokenType::Semi);
            }
        }
        let _ = ended?;
        Ok(Stmt::Expression(expr))
    }

    /// The declarations of a block, after the opening brace, and the closing
    /// brace. An error means that no block is read.
    pub fn block(&mut self) -> (r: Result<Vec<Stmt>, SyntaxError>)
        requires
            old(self).wf(),
        ensures
            final(self).after(old(self)),
            r matches Ok(statements) ==> final(self).current > old(self).current && block_at(
                final(self).tokens@,
                old(self).current as int,
                statements@,
                final(self).current as int,
            ),
            r is Err ==> no_block(final(self).tokens@, old(self).current as int),
        decreases old(self).remaining(), 23int,
    {
        let ghost tokens = self.tokens@;
        let ghost start = self.current as int;
        let mut statements: Vec<Stmt> = Vec::new();
        while !self.check(TokenType::RightBrace) && !self.at_end()
            invariant
                self.after(old(self)),
                tokens == self.tokens@,
                start == old(self).current,
                sequence_at(
                    tokens,
                    start,
                    statements@,
                    statements@.len() as int,
                    self.current as int,
                ),
            decreases self.remaining(),
        {
            let ghost mid = self.current as int;
            let ghost sofar = statements@;
            let read = self.declaration();
            proof {
                if read is Err {
                    lemma_none_block(tokens, start, sofar, mid);
                }
            }
            let stmt = read?;
            statements.push(stmt);
            proof {
                lemma_sequence_prefix(tokens, start, sofar, statements@, sofar.len() as int, mid);
                assert(cut(mid) && sequence_to(
                    tokens,
                    start,
                    statements@,
                    statements@.len() as int,
                    mid,
                    self.current as int,
                ));
            }
        }
        let closed = self.consume(TokenType::RightBrace, "Expect '}' after block.");
        proof {
            if closed is Err {
                lemma_none_at_end(tokens, self.current as int);
                lemma_none_block(tokens, start, statements@, self.current as int);
            }
        }
        let _ = closed?;
        Ok(statements)
    }

    /// A `print`, after the keyword: an expression and a semicolon. An
    /// error means that no statement is read from the keyword on.
    pub fn print_statement(&mut self) -> (r: Result<Stmt, SyntaxError>)
        requires
            old(self).wf(),
            old(self).current > 0,
            is_at(old(self).tokens@, old(self).current - 1, TokenType::Print),
        ensures
            final(self).after(old(self)),
            r matches Ok(s) ==> final(self).current > old(self).current && s is Print
                && statement_at(
                final(self).tokens@,
                old(self).current - 1,
                s,
                final(self).current as int,
            ),
            r is Err ==> no_statement(final(self).tokens@, old(self).current - 1),
        decreases old(self).remaining(), 19int,
    {
        let ghost tokens = self.tokens@;
        let ghost start = self.current as int;
        let read = self.expression();
        proof {
            if read is Err {
                lemma_closes_none(tokens, start, TokenType::Semi);
                lemma_none_print(tokens, start - 1);
            }
        }
        let value = read?;
        let ended = self.consume(TokenType::Semi, "Expect ';' after expression.");
        proof {
            if ended is Err {
                lemma_closes_other(tokens, start, value, self.current as int, TokenType::Semi);
                lemma_none_print(tokens, start - 1);
            }
        }
        let _ = ended?;
        Ok(Stmt::Print(value))
    }

    /// What a function that reads an expression at a level gives. The
    /// parser has moved on over the same tokens. Where it gives an
    /// expression, the tokens it has moved over are that expression, read
    /// at that level, and the next token does not carry it on. Where it
    /// gives an error, no expression read at that level from where the
    /// parser stood is whole.
    pub open spec fn reads(
        &self,
        before: &Self,
        level: int,
        r: Result<Expr, SyntaxError>,
    ) -> bool {
        &&& self.after(before)
        &&& match r {
            Ok(e) => {
                &&& self.current > before.current
                &&& derives(self.tokens@, level, before.current as int, e, self.current as int)
                &&& !goes_on(self.tokens@, level, self.current as int)
            },
            Err(_) => none_whole(self.tokens@, level, before.current as int),
        }
    }

    /// An expression: an assignment to a variable or to a property, or what
    /// binds tighter.
    pub fn expression(&mut self) -> (r: Result<Expr, SyntaxError>)
        requires
            old(self).wf(),
        ensures
            final(self).reads(old(self), ASSIGNMENT as int, r),
        decreases old(self).remaining(), 18int,
    {
        let ghost start = self.current as int;
        let ghost tokens = self.tokens@;
        let found = self.or();
        proof {
            if found is Err {
                lemma_none_or(tokens, start);
            }
        }
        let expr = found?;
        let ghost stop = self.current as int;
        proof {
            lemma_rank(tokens, OR as int, start, expr, stop);
        }
        match expr {
            Expr::Variable { name } => {
                if self.match_one(TokenType::Equal) {
                    let assigned = self.expression();
                    proof {
                        lemma_descend(tokens, OR as int, PRIMARY as int, start, expr, stop);
                        if assigned is Err {
                            lemma_none_assigned(tokens, start);
                        }
                    }
                    let value = assigned?;
                    Ok(Expr::Assign { name, value: Box::new(value) })
                } else {
                    Ok(Expr::Variable { name })
                }
            },
            Expr::Get { object, name } => {
                if self.match_one(TokenType::Equal) {
                    let assigned = self.expression();
                    proof {
                        if assigned is Err {
                            lemma_none_set(tokens, start, expr, stop);
                        }
                    }
                    let value = assigned?;
                    let set = Expr::SetField { object, name, value: Box::new(value) };
                    proof {
                        lemma_descend(tokens, OR as int, CALL as int, start, expr, stop);
                        assert(cut(stop - 2) && set_at(
                            tokens,
                            start,
                            set,
                            stop - 2,
                            self.current as int,
                        ));
                    }
                    Ok(set)
                } else {
                    Ok(Expr::Get { object, name })
                }
            },
            other => Ok(other),
        }
    }

    /// Operations of a level of binary operators, from `factor` to `or`:
    /// operands of the next tighter level, left to right.
    pub fn operation(&mut self, level: u8) -> (r: Result<Expr, SyntaxError>)
        requires
            old(self).wf(),
            UNARY <= level <= OR,
        ensures
            final(self).reads(old(self), level as int, r),
        decreases old(self).remaining(), 8 + level,
    {
        if level == UNARY {
            return self.unary();
        }
        let ghost start = self.current as int;
        let ghost tokens = self.tokens@;
        let first = self.operation(level - 1);
        proof {
            if first is Err {
                lemma_none_operand(tokens, level as int, start);
            }
        }
        let mut expr = first?;
        proof {
            lemma_lift(tokens, level - 1, level as int, start, expr, self.current as int);
        }
        loop
            invariant
                self.after(old(self)),
                self.current > old(self).current,
                UNARY < level <= OR,
                tokens == self.tokens@,
                start == old(self).current,
                derives(tokens, level as int, start, expr, self.current as int),
                !goes_on(tokens, level - 1, self.current as int),
            ensures
                !goes_on(tokens, level as int, self.current as int),
            decreases self.remaining(),
        {
            let ghost at = self.current as int;
            if !self.match_token(operators(level)) {
                break ;
            }
            let operator = self.previous();
            let next = self.operation(level - 1);
            proof {
                if next is Err {
                    lemma_none_right(tokens, level as int, start, expr, at);
                }
            }
            let right = next?;
            let ghost left = expr;
            expr = if level >= AND {
                Expr::Logical { left: Box::new(expr), operator, right: Box::new(right) }
            } else {
                Expr::Binary { left: Box::new(expr), operator, right: Box::new(right) }
            };
            proof {
                assert(operator_of(level as int, operator.token_type));
                assert(operation_of(level as int, expr));
                assert(cut(at) && operated_at(
                    tokens,
                    level as int,
                    start,
                    expr,
                    at,
                    self.current as int,
                ));
            }
        }
        Ok(expr)
    }

    /// Operands of `or`, left to right.
    pub fn or(&mut self) -> (r: Result<Expr, SyntaxError>)
        requires
            old(self).wf(),
        ensures
            final(self).reads(old(self), OR as int, r),
        decreases old(self).remaining(), 17int,
    {
        self.operation(OR)
    }

    /// Operands of `and`, left to right.
    pub fn and(&mut self) -> (r: Result<Expr, SyntaxError>)
        requires
            old(self).wf(),
        ensures
            final(self).reads(old(self), AND as int, r),
        decreases old(self).remaining(), 17int,
    {
        self.operation(AND)
    }

    /// Operands of `!=` and `==`, left to right.
    pub fn equality(&mut self) -> (r: Result<Expr, SyntaxError>)
        requires
            old(self).wf(),
        ensures
            final(self).reads(old(self), EQUALITY as int, r),
        decreases old(self).remaining(), 17int,
    {
        self.operation(EQUALITY)
    }

    /// Operands of `>`, `>=`, `<` and `<=`, left to right.
    pub fn comparison(&mut self) -> (r: Result<Expr, SyntaxError>)
        requires
            old(self).wf(),
        ensures
            final(self).reads(old(self), COMPARISON as int, r),
        decreases old(self).remaining(), 17int,
    {
        self.operation(COMPARISON)
    }

    /// Operands of `-` and `+`, left to right.
    pub fn term(&mut self) -> (r: Result<Expr, SyntaxError>)
        requires
            old(self).wf(),
        ensures
            final(self).reads(old(self), TERM as int, r),
        decreases old(self).remaining(), 17int,
    {
        self.operation(TERM)
    }

    /// Operands of `/`, `*` and `%`, left to right.
    pub fn factor(&mut self) -> (r: Result<Expr, SyntaxError>)
        requires
            old(self).wf(),
        ensures
            final(self).reads(old(self), FACTOR as int, r),
        decreases old(self).remaining(), 17int,
    {
        self.operation(FACTOR)
    }

    /// A unary operator and its operand, or a call.
    pub fn unary(&mut self) -> (r: Result<Expr, SyntaxError>)
        requires
            old(self).wf(),
        ensures
            final(self).reads(old(self), UNARY as int, r),
        decreases old(self).remaining(), 9int,
    {
        let ghost start = self.current as int;
        let ghost tokens = self.tokens@;
        let kinds = vec![TokenType::Bang, TokenType::Minus];
        proof {
            assert(kinds@[0] == TokenType::Bang && kinds@[1] == TokenType::Minus);
        }
        if self.match_token(kinds) {
            let operator = self.previous();
            let operand = self.unary();
            proof {
                if operand is Err {
                    lemma_none_operated(tokens, start);
                }
            }
            let right = operand?;
            return Ok(Expr::Unary { operator, right: Box::new(right) });
        }
        let called = self.call();
        proof {
            if called is Err {
                lemma_none_unary(tokens, start);
            }
        }
        let e = called?;
        proof {
            lemma_lift(tokens, CALL as int, UNARY as int, start, e, self.current as int);
        }
        Ok(e)
    }

    /// A primary expression and what follows it: argument lists and property
    /// names.
    pub fn call(&mut self) -> (r: Result<Expr, SyntaxError>)
        requires
            old(self).wf(),
        ensures
            final(self).reads(old(self), CALL as int, r),
        decreases old(self).remaining(), 8int,
    {
        let ghost start = self.current as int;
        let ghost tokens = self.tokens@;
        let first = self.primary();
        proof {
            if first is Err {
                lemma_none_call(tokens, start);
            }
        }
        let mut expr = first?;
        proof {
            lemma_lift(tokens, PRIMARY as int, CALL as int, start, expr, self.current as int);
        }
        loop
            invariant
                self.after(old(self)),
                self.current > old(self).current,
                tokens == self.tokens@,
                start == old(self).current,
                derives(tokens, CALL as int, start, expr, self.current as int),
            ensures
                !goes_on(tokens, CALL as int, self.current as int),
            decreases self.remaining(),
        {
            let ghost open = self.current as int;
            let ghost inner = expr;
            if self.match_one(TokenType::LeftParen) {
                let called = self.finish_call(expr);
                proof {
                    if called is Err {
                        lemma_none_called(tokens, start, inner, open);
                    }
                }
                expr = called?;
                proof {
                    assert(cut(open) && called_at(tokens, start, expr, open, self.current as int));
                }
            } else if self.match_one(TokenType::Dot) {
                let named = self.consume(TokenType::Identifier, "Expect property name after '.'.");
                proof {
                    if named is Err {
                        lemma_none_got(tokens, start, inner, open);
                    }
                }
                let name = named?;
                expr = Expr::Get { object: Box::new(expr), name };
            } else {
                break ;
            }
        }
        Ok(expr)
    }

    /// The arguments of a call, after the opening parenthesis, no more than
    /// 255 of them, and the closing parenthesis. An error means that no
    /// such arguments are read.
    pub fn finish_call(&mut self, callee: Expr) -> (r: Result<Expr, SyntaxError>)
        requires
            old(self).wf(),
            old(self).current > 0,
        ensures
            final(self).after(old(self)),
            r matches Ok(e) ==> {
                &&& final(self).current > old(self).current
                &&& e matches Expr::Call { callee: c, paren, arguments }
                &&& *c == callee
                &&& arguments@.len() <= MAX_ARITY
                &&& listed(
                    final(self).tokens@,
                    old(self).current as int,
                    arguments@,
                    arguments@.len() as int,
                    final(self).current - 1,
                )
                &&& stands_at(final(self).tokens@, final(self).current - 1, paren, TokenType::RightParen)
            },
            r is Err ==> no_arguments(final(self).tokens@, old(self).current as int),
        decreases old(self).remaining(), 19int,
    {
        let ghost first = self.current as int;
        let ghost tokens = self.tokens@;
        let mut arguments: Vec<Expr> = Vec::new();
        let mut more = !self.check(TokenType::RightParen);
        let ghost mut comma = first;
        while more
            invariant
                self.after(old(self)),
                self.current > 0,
                tokens == self.tokens@,
                first == old(self).current,
                arguments@.len() <= MAX_ARITY,
                more ==> listed(tokens, first, arguments@, arguments@.len() as int, comma),
                more && arguments@.len() == 0 ==> self.current == first && !is_at(
                    tokens,
                    first,
                    TokenType::RightParen,
                ),
                more && arguments@.len() > 0 ==> is_at(tokens, comma, TokenType::Comma)
                    && self.current == comma + 1,
                !more ==> listed(
                    tokens,
                    first,
                    arguments@,
                    arguments@.len() as int,
                    self.current as int,
                ),
                !more && arguments@.len() == 0 ==> is_at(
                    tokens,
                    self.current as int,
                    TokenType::RightParen,
                ),
                !more && arguments@.len() > 0 ==> !goes_on(
                    tokens,
                    ASSIGNMENT as int,
                    self.current as int,
                ) && !is_at(tokens, self.current as int, TokenType::Comma),
            decreases self.remaining() + if more {
                1nat
            } else {
                0nat
            },
        {
            if arguments.len() >= MAX_ARITY {
                proof {
                    lemma_none_listed_more(tokens, first, arguments@, comma);
                }
                return Err(
                    SyntaxError {
                        msg: String::from_str("Function cannot have more than 255 arguments"),
                        line: self.previous().line,
                    },
                );
            }
            let ghost listed_before = arguments@;
            let next = self.expression();
            proof {
                if next is Err {
                    if listed_before.len() == 0 {
                        lemma_none_listed_first(tokens, first);
                    } else {
                        lemma_none_listed_next(tokens, first, listed_before, comma);
                    }
                }
            }
            let argument = next?;
            arguments.push(argument);
            proof {
                let count = arguments@.len() as int;
                if count > 1 {
                    lemma_listed_prefix(tokens, first, listed_before, arguments@, count - 1, comma);
                    assert(cut(comma) && listed_to(
                        tokens,
                        first,
                        arguments@,
                        count,
                        comma,
                        self.current as int,
                    ));
                }
            }
            proof {
                comma = self.current as int;
            }
            more = self.match_one(TokenType::Comma);
        }
        let closed = self.consume(TokenType::RightParen, "Expect ')' after arguments.");
        proof {
            if closed is Err {
                lemma_none_listed_open(tokens, first, arguments@, self.current as int);
            }
        }
        let paren = closed?;
        Ok(Expr::Call { callee: Box::new(callee), paren, arguments })
    }

    /// A literal, `this`, `super` and a method name, a variable, or an
    /// expression in parentheses.
    pub fn primary(&mut self) -> (r: Result<Expr, SyntaxError>)
        requires
            old(self).wf(),
        ensures
            final(self).reads(old(self), PRIMARY as int, r),
            !old(self).starts_primary() ==> r is Err && r->Err_0.msg@ == old(self).error_message(
                "Expect an expression."@,
            ) && r->Err_0.line == old(self).near_line() && final(self).current == old(self).current,
        decreases old(self).remaining(), 7int,
    {
        let ghost start = self.current as int;
        let ghost tokens = self.tokens@;
        if self.match_one(TokenType::Nil) {
            return Ok(Expr::Literal { value: Literal::Nil });
        }
        if self.match_one(TokenType::False) {
            return Ok(Expr::Literal { value: Literal::Boolean(false) });
        }
        if self.match_one(TokenType::True) {
            return Ok(Expr::Literal { value: Literal::Boolean(true) });
        }
        if self.match_one(TokenType::Number) {
            return Ok(Expr::Literal { value: self.previous().literal });
        }
        if self.match_one(TokenType::SoxString) {
            return Ok(Expr::Literal { value: self.previous().literal });
        }
        if self.match_one(TokenType::Super) {
            let keyword = self.previous();
            let dot = self.consume(TokenType::Dot, "Expect '.' after 'super'.");
            proof {
                if dot is Err {
                    lemma_none_super(tokens, start);
                }
            }
            let _ = dot?;
            let named = self.consume(TokenType::Identifier, "Expect superclass method name.");
            proof {
                if named is Err {
                    lemma_none_super(tokens, start);
                }
            }
            let method = named?;
            return Ok(Expr::Super { keyword, method });
        }
        if self.match_one(TokenType::This) {
            return Ok(Expr::This { keyword: self.previous() });
        }
        if self.match_one(TokenType::Identifier) {
            return Ok(Expr::Variable { name: self.previous() });
        }
        if self.match_one(TokenType::LeftParen) {
            let inner = self.expression();
            proof {
                if inner is Err {
                    lemma_none_grouped(tokens, start);
                }
            }
            let expr = inner?;
            let closed = self.consume(TokenType::RightParen, "Expect ')' after expression.");
            proof {
                if closed is Err {
                    lemma_none_closed(tokens, start, expr, self.current as int);
                }
            }
            let _ = closed?;
            return Ok(Expr::Grouping { expr: Box::new(expr) });
        }
        proof {
            lemma_none_primary(tokens, start);
        }
        Err(self.error_here("Expect an expression."))
    }

    /// The next token starts a primary expression.
    pub open spec fn starts_primary(&self) -> bool {
        self.check_any(
            seq![
                TokenType::Nil,
                TokenType::False,
                TokenType::True,
                TokenType::Number,
                TokenType::SoxString,
                TokenType::Super,
                TokenType::This,
                TokenType::Identifier,
                TokenType::LeftParen,
            ],
        )
    }
}

} // verus!
