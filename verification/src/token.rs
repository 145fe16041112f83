use vstd::prelude::*;
use vstd::std_specs::cmp::PartialEqSpecImpl;
use crate::token_type::TokenType;

verus! {

/// A fractional number literal, kept as the decimal text that was written.
///
/// The text is one or more digits, a dot, and one or more digits. Turning it
/// into a binary floating-point number is left to the host.
#[derive(Debug, Eq, Hash)]
pub struct Float(pub String);

impl Clone for Float {
    fn clone(&self) -> (r: Self)
        ensures
            r == *self,
    {
        Float(self.0.clone())
    }
}

impl PartialEq for Float {
    fn eq(&self, other: &Self) -> (r: bool) {
        self.0 == other.0
    }
}

impl PartialEqSpecImpl for Float {
    open spec fn obeys_eq_spec() -> bool {
        true
    }

    open spec fn eq_spec(&self, other: &Self) -> bool {
        self.0@ == other.0@
    }
}

/// The payload a token may carry.
#[derive(Debug, Eq, Hash)]
pub enum Literal {
    String(String),
    Integer(i64),
    Float(Float),
    Boolean(bool),
    Nil,
}

impl Clone for Literal {
    fn clone(&self) -> (r: Self)
        ensures
            r == *self,
    {
        match self {
            Literal::String(s) => Literal::String(s.clone()),
            Literal::Integer(i) => Literal::Integer(*i),
            Literal::Float(x) => Literal::Float(x.clone()),
            Literal::Boolean(b) => Literal::Boolean(*b),
            Literal::Nil => Literal::Nil,
        }
    }
}

/// What a payload says, with texts as sequences of characters.
pub enum LiteralView {
    Str(Seq<char>),
    Integer(i64),
    Float(Seq<char>),
    Boolean(bool),
    Nil,
}

impl View for Literal {
    type V = LiteralView;

    open spec fn view(&self) -> LiteralView {
        match *self {
            Literal::String(s) => LiteralView::Str(s@),
            Literal::Integer(i) => LiteralView::Integer(i),
            Literal::Float(x) => LiteralView::Float(x.0@),
            Literal::Boolean(b) => LiteralView::Boolean(b),
            Literal::Nil => LiteralView::Nil,
        }
    }
}

impl Literal {
    /// Two payloads have the same contents.
    pub open spec fn same(self, other: Literal) -> bool {
        match (self, other) {
            (Literal::String(a), Literal::String(b)) => a@ == b@,
            (Literal::Integer(a), Literal::Integer(b)) => a == b,
            (Literal::Float(a), Literal::Float(b)) => a.0@ == b.0@,
            (Literal::Boolean(a), Literal::Boolean(b)) => a == b,
            (Literal::Nil, Literal::Nil) => true,
            _ => false,
        }
    }
}

impl PartialEq for Literal {
    fn eq(&self, other: &Self) -> (r: bool) {
        match self {
            Literal::String(a) => match other {
                Literal::String(b) => *a == *b,
                _ => false,
            },
            Literal::Integer(a) => match other {
                Literal::Integer(b) => *a == *b,
                _ => false,
            },
            Literal::Float(a) => match other {
                Literal::Float(b) => a.0 == b.0,
                _ => false,
            },
            Literal::Boolean(a) => match other {
                Literal::Boolean(b) => *a == *b,
                _ => false,
            },
            Literal::Nil => match other {
                Literal::Nil => true,
                _ => false,
            },
        }
    }
}

impl PartialEqSpecImpl for Literal {
    open spec fn obeys_eq_spec() -> bool {
        true
    }

    open spec fn eq_spec(&self, other: &Self) -> bool {
        self.same(*other)
    }
}

/// One lexical unit of a source text.
///
/// `id` tells two tokens with the same text apart: a lexer numbers the tokens
/// it produces, starting from zero. Equality compares what a token says and
/// where it stands, not its number.
#[derive(Debug, Eq)]
pub struct Token {
    pub token_type: TokenType,
    pub lexeme: String,
    pub literal: Literal,
    pub line: usize,
    pub id: u32,
}

impl Clone for Token {
    fn clone(&self) -> (r: Self)
        ensures
            r == *self,
    {
        Token {
            token_type: self.token_type,
            lexeme: self.lexeme.clone(),
            literal: self.literal.clone(),
            line: self.line,
            id: self.id,
        }
    }
}

/// What a token says, with texts as sequences of characters.
pub struct TokenView {
    pub token_type: TokenType,
    pub lexeme: Seq<char>,
    pub literal: LiteralView,
    pub line: usize,
    pub id: u32,
}

impl View for Token {
    type V = TokenView;

    open spec fn view(&self) -> TokenView {
        TokenView {
            token_type: self.token_type,
            lexeme: self.lexeme@,
            literal: self.literal@,
            line: self.line,
            id: self.id,
        }
    }
}

impl Token {
    /// A token with the number zero.
    pub fn new(token_type: TokenType, lexeme: String, literal: Literal, line: usize) -> (t: Self)
        ensures
            t == (Token { token_type, lexeme, literal, line, id: 0 }),
    {
        Token { token_type, lexeme, literal, line, id: 0 }
    }

    /// Two tokens say the same thing on the same line.
    pub open spec fn same(self, other: Token) -> bool {
        &&& self.token_type == other.token_type
        &&& self.lexeme@ == other.lexeme@
        &&& self.literal.same(other.literal)
        &&& self.line == other.line
    }
}

impl PartialEq for Token {
    fn eq(&self, other: &Self) -> (r: bool) {
        self.token_type == other.token_type && self.lexeme == other.lexeme && self.literal
            == other.literal && self.line == other.line
    }
}

impl PartialEqSpecImpl for Token {
    open spec fn obeys_eq_spec() -> bool {
        true
    }

    open spec fn eq_spec(&self, other: &Self) -> bool {
        self.same(*other)
    }
}

} // verus!
