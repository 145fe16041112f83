//! An interpreter for a small class-based scripting language.
//!
//! A source text goes through four stages. The [`lexer`] cuts it into
//! tokens. The [`parser`] reads the tokens as statements, by the grammar in
//! [`grammar`]. The [`resolver`] finds, for every reference to a local
//! variable, how many scopes out its binding lies and at which index. The
//! [`interpreter`] runs the statements, step by step, against the frames of
//! an [`environment`]. [`init`] puts the first three stages together.
//!
//! The library reads no file, prints nothing, and holds no floating-point
//! number. Its host does that: a step of the interpreter hands the host a
//! line to print or a request to compute on fractional numbers, and the next
//! step takes the answer.
//!
//! The grammar reads a text in one way at most: [`unique`] shows this of
//! expressions and [`unique_statements`] of statements and programs. The
//! parser gives errors only for a text that the grammar reads in no way;
//! the reasons are in [`dead_ends`].
//!
//! What a step does is written down in [`semantics`]; [`soundness`] shows
//! that the values of a running program never refer to what is gone.

pub mod builtins;
pub mod catalog;
pub mod dead_ends;
pub mod environment;
pub mod expr;
pub mod grammar;
pub mod init;
pub mod interpreter;
pub mod lexer;
pub mod object;
pub mod operators;
pub mod parser;
pub mod resolver;
pub mod semantics;
pub mod soundness;
pub mod stmt;
pub mod table;
pub mod token;
pub mod token_type;
pub mod unique;
pub mod unique_statements;
