use std::collections::HashMap;
use vstd::prelude::*;
use crate::lexer::{tokens_from, Lexer};
use crate::parser::{ignored, Parser, SyntaxError};
use crate::dead_ends::no_program;
use crate::grammar::program;
use crate::resolver::{resolution_from, Resolver, ResolverError, ResolverErrorView};
use crate::stmt::Stmt;
use crate::token::{Token, TokenView};

verus! {

/// A program that is ready to run: its statements, and where the resolver
/// placed its references to local variables.
pub struct Program {
    pub statements: Vec<Stmt>,
    pub locals: HashMap<u32, (usize, usize)>,
}

/// Why a source text is no program.
#[derive(Debug)]
pub enum RunError {
    /// The syntax errors, in the order in which they were found.
    Syntax(Vec<SyntaxError>),
    /// The error that stopped the resolver.
    Resolve(ResolverError),
}

/// The tokens that the parser sees of a text whose first token has the
/// number `first`.
pub open spec fn seen_tokens(source: Seq<char>, first: u32) -> Seq<TokenView> {
    tokens_from(source, 0, 1, first).filter(|t: TokenView| !ignored(t.token_type))
}

/// The tokens are those that the parser sees of the text, and the statements
/// are what the grammar reads them as.
pub open spec fn parsed(
    source: Seq<char>,
    first: u32,
    tokens: Seq<Token>,
    statements: Seq<Stmt>,
) -> bool {
    &&& tokens.map_values(|t: Token| t@) == seen_tokens(source, first)
    &&& program(tokens, statements)
}

/// The tokens are those that the parser sees of the text, and the grammar
/// reads them as no program.
pub open spec fn unparsed(source: Seq<char>, first: u32, tokens: Seq<Token>) -> bool {
    &&& tokens.map_values(|t: Token| t@) == seen_tokens(source, first)
    &&& no_program(tokens, 0)
}

/// What the front end gives for a source text whose first token has the
/// number `first`, where `locals` are the coordinates found before.
///
/// A program's statements are what the grammar reads the tokens of the text
/// as. With resolution, its coordinates are those that the resolver finds,
/// added to `locals`; a program that the resolver rejects gives the
/// resolver's error. Without resolution the coordinates are `locals`.
/// Syntax errors are at least one, and they are given where the grammar
/// reads the tokens of the text as no program.
pub open spec fn front_end(
    source: Seq<char>,
    enable_var_resolution: bool,
    first: u32,
    locals: Map<u32, (usize, usize)>,
    r: Result<Program, RunError>,
) -> bool {
    match r {
        Ok(program) => {
            &&& exists|tokens: Seq<Token>| #[trigger]
                parsed(source, first, tokens, program.statements@)
            &&& if enable_var_resolution {
                resolution_from(locals, program.statements@) == Ok::<
                    Map<u32, (usize, usize)>,
                    ResolverErrorView,
                >(program.locals@)
            } else {
                program.locals@ == locals
            }
        },
        Err(RunError::Resolve(e)) => {
            &&& enable_var_resolution
            &&& exists|tokens: Seq<Token>, statements: Seq<Stmt>|
                {
                    &&& #[trigger] parsed(source, first, tokens, statements)
                    &&& resolution_from(locals, statements) == Err::<
                        Map<u32, (usize, usize)>,
                        ResolverErrorView,
                    >(e@)
                }
        },
        Err(RunError::Syntax(errors)) => {
            &&& errors@.len() > 0
            &&& exists|tokens: Seq<Token>| #[trigger] unparsed(source, first, tokens)
        },
    }
}

/// What the front end makes of a source text: the text is lexed and parsed,
/// and, where `enable_var_resolution` says so, resolved. Without resolution
/// every variable is looked up by name in the global frame.
///
/// The tokens are numbered from zero.
pub fn run(source: &str, enable_var_resolution: bool) -> (r: Result<Program, RunError>)
    ensures
        front_end(source@, enable_var_resolution, 0, Map::empty(), r),
{
    run_from(source, enable_var_resolution, 0, HashMap::new())
}

/// What the front end makes of a source text that continues an earlier one:
/// its tokens are numbered from `first` on, and the resolver adds to the
/// coordinates found before.
pub fn run_from(
    source: &str,
    enable_var_resolution: bool,
    first: u32,
    locals: HashMap<u32, (usize, usize)>,
) -> (r: Result<Program, RunError>)
    ensures
        front_end(source@, enable_var_resolution, first, locals@, r),
{
    let tokens = Lexer::numbered_from(source, first);
    let mut parser = Parser::new(tokens);
    let ghost seen = parser.tokens@;
    let statements = match parser.parse() {
        Ok(statements) => statements,
        Err(errors) => {
            proof {
                assert(unparsed(source@, first, seen));
            }
            return Err(RunError::Syntax(errors));
        },
    };
    proof {
        assert(parsed(source@, first, seen, statements@));
    }
    if enable_var_resolution {
        let mut var_resolver = Resolver::continuing(locals);
        match var_resolver.resolve(&statements) {
            Ok(table) => Ok(Program { statements, locals: table }),
            Err(e) => Err(RunError::Resolve(e)),
        }
    } else {
        Ok(Program { statements, locals })
    }
}

} // verus!
