use std::collections::HashMap;
use vstd::prelude::*;
use crate::expr::Expr;
use crate::stmt::Stmt;
use crate::token::Token;

verus! {

broadcast use vstd::std_specs::hash::group_hash_axioms;

/// What the resolver rejects.
#[derive(Debug)]
pub enum ResolverError {
    NoScope,
    DuplicateVariable(String),
    NotFound(String),
    SyntaxError(String),
}

/// What a `ResolverError` says, with texts as sequences of characters.
pub enum ResolverErrorView {
    NoScope,
    DuplicateVariable(Seq<char>),
    NotFound(Seq<char>),
    SyntaxError(Seq<char>),
}

impl View for ResolverError {
    type V = ResolverErrorView;

    open spec fn view(&self) -> ResolverErrorView {
        match *self {
            ResolverError::NoScope => ResolverErrorView::NoScope,
            ResolverError::DuplicateVariable(s) => ResolverErrorView::DuplicateVariable(s@),
            ResolverError::NotFound(s) => ResolverErrorView::NotFound(s@),
            ResolverError::SyntaxError(s) => ResolverErrorView::SyntaxError(s@),
        }
    }
}

impl ResolverError {
    /// The message.
    pub open spec fn text(&self) -> Seq<char> {
        match *self {
            ResolverError::NoScope => "No scope"@,
            ResolverError::DuplicateVariable(s) => s@,
            ResolverError::NotFound(s) => s@,
            ResolverError::SyntaxError(s) => s@,
        }
    }

    /// The message.
    pub fn repr(&self) -> (r: String)
        ensures
            r@ == self.text(),
    {
        match self {
            ResolverError::NoScope => String::from_str("No scope"),
            ResolverError::DuplicateVariable(s) => s.clone(),
            ResolverError::NotFound(s) => s.clone(),
            ResolverError::SyntaxError(s) => s.clone(),
        }
    }
}

/// The kind of function whose body is being resolved.
#[derive(Clone, Debug, Eq, PartialEq, Copy, Structural)]
pub enum FunctionType {
    /// No function: top-level code.
    Absent,
    Function,
    Method,
    Initializer,
}

/// The kind of class whose methods are being resolved.
#[derive(Clone, Debug, Eq, PartialEq, Copy, Structural)]
pub enum ClassType {
    /// No class.
    Absent,
    Class,
    SubClass,
}

/// One scope: the names declared in it, in the order of their declaration,
/// each with whether it is defined yet.
pub type ScopeView = Seq<(Seq<char>, bool)>;

/// The state of a resolver: the scopes around the place it has reached, the
/// innermost last; the kinds of function and class around it; and the
/// coordinates found so far, by the number of the reference's token.
pub struct Resolution {
    pub scopes: Seq<ScopeView>,
    pub current_function: FunctionType,
    pub current_class: ClassType,
    pub table: Map<u32, (usize, usize)>,
}

/// The first index at or after `from` of the name in the scope, if any.
pub open spec fn index_in(scope: ScopeView, name: Seq<char>, from: int) -> Option<int>
    decreases scope.len() - from,
{
    if from < 0 || from >= scope.len() {
        None
    } else if scope[from].0 == name {
        Some(from)
    } else {
        index_in(scope, name, from + 1)
    }
}

/// The coordinates of the name: how many scopes out from the innermost, at
/// least `depth`, the first scope with the name lies, and the name's index
/// there.
pub open spec fn locate(scopes: Seq<ScopeView>, name: Seq<char>, depth: int) -> Option<(int, int)>
    decreases scopes.len() - depth,
{
    if depth < 0 || depth >= scopes.len() {
        None
    } else {
        match index_in(scopes[scopes.len() - 1 - depth], name, 0) {
            Some(i) => Some((depth, i)),
            None => locate(scopes, name, depth + 1),
        }
    }
}

/// The message for a name declared twice in one scope.
pub open spec fn duplicate_text(name: Seq<char>) -> Seq<char> {
    "Already a variable with the name '"@ + name + "' in this scope."@
}

/// The message for a variable read in its own initializer.
pub open spec fn own_initializer_text(name: Seq<char>) -> Seq<char> {
    "Can't read local variable '"@ + name + "' in its own initializer"@
}

/// The message for a class that names itself as its superclass.
pub open spec fn inherits_itself_text(name: Seq<char>) -> Seq<char> {
    "Error at '"@ + name + "': A class cannot inherit from itself."@
}

impl Resolution {
    /// The state before anything is resolved.
    pub open spec fn start() -> Resolution {
        Resolution {
            scopes: Seq::empty(),
            current_function: FunctionType::Absent,
            current_class: ClassType::Absent,
            table: Map::empty(),
        }
    }

    /// A new innermost scope.
    pub open spec fn begin_scope(self) -> Resolution {
        Resolution { scopes: self.scopes.push(Seq::empty()), ..self }
    }

    /// Without the innermost scope.
    pub open spec fn end_scope(self) -> Resolution {
        if self.scopes.len() > 0 {
            Resolution { scopes: self.scopes.drop_last(), ..self }
        } else {
            self
        }
    }

    /// With one more name at the end of the innermost scope. Outside all
    /// scopes nothing changes.
    pub open spec fn bind(self, name: Seq<char>, defined: bool) -> Resolution {
        if self.scopes.len() > 0 {
            Resolution {
                scopes: self.scopes.update(
                    self.scopes.len() - 1,
                    self.scopes.last().push((name, defined)),
                ),
                ..self
            }
        } else {
            self
        }
    }

    /// Declares a name in the innermost scope, as not yet defined. A name
    /// that the scope has already is an error. Outside all scopes, where
    /// names are global, nothing is declared.
    pub open spec fn declare(self, name: Seq<char>) -> Result<Resolution, ResolverErrorView> {
        if self.scopes.len() > 0 && index_in(self.scopes.last(), name, 0) is Some {
            Err(ResolverErrorView::DuplicateVariable(duplicate_text(name)))
        } else {
            Ok(self.bind(name, false))
        }
    }

    /// Marks the name in the innermost scope as defined.
    pub open spec fn define(self, name: Seq<char>) -> Resolution {
        if self.scopes.len() > 0 {
            match index_in(self.scopes.last(), name, 0) {
                Some(i) => Resolution {
                    scopes: self.scopes.update(
                        self.scopes.len() - 1,
                        self.scopes.last().update(i, (name, true)),
                    ),
                    ..self
                },
                None => self,
            }
        } else {
            self
        }
    }

    /// Declares and defines a name.
    pub open spec fn introduce(self, name: Seq<char>) -> Result<Resolution, ResolverErrorView> {
        match self.declare(name) {
            Ok(s) => Ok(s.define(name)),
            Err(e) => Err(e),
        }
    }

    /// Records the coordinates of a reference, where a scope has its name. A
    /// reference to a name that no scope has is global and is not recorded.
    pub open spec fn resolve_local(self, name: Token) -> Resolution {
        match locate(self.scopes, name.lexeme@, 0) {
            Some((depth, index)) => Resolution {
                table: self.table.insert(name.id, (depth as usize, index as usize)),
                ..self
            },
            None => self,
        }
    }

    /// The name is declared in the innermost scope and not yet defined.
    pub open spec fn in_own_initializer(self, name: Seq<char>) -> bool {
        self.scopes.len() > 0 && (match index_in(self.scopes.last(), name, 0) {
            Some(i) => !self.scopes.last()[i].1,
            None => false,
        })
    }

    /// Resolves an expression.
    pub open spec fn resolve_expr(self, expr: Expr) -> Result<Resolution, ResolverErrorView>
        decreases expr, 0int,
    {
        match expr {
            Expr::Literal { .. } => Ok(self),
            Expr::Variable { name } => {
                if self.in_own_initializer(name.lexeme@) {
                    Err(ResolverErrorView::SyntaxError(own_initializer_text(name.lexeme@)))
                } else {
                    Ok(self.resolve_local(name))
                }
            },
            Expr::Assign { name, value } => match self.resolve_expr(*value) {
                Ok(s) => Ok(s.resolve_local(name)),
                Err(e) => Err(e),
            },
            Expr::Binary { left, operator, right } => match self.resolve_expr(*left) {
                Ok(s) => s.resolve_expr(*right),
                Err(e) => Err(e),
            },
            Expr::Logical { left, operator, right } => match self.resolve_expr(*left) {
                Ok(s) => s.resolve_expr(*right),
                Err(e) => Err(e),
            },
            Expr::Grouping { expr: inner } => self.resolve_expr(*inner),
            Expr::Unary { operator, right } => self.resolve_expr(*right),
            Expr::Call { callee, paren, arguments } => match self.resolve_expr(*callee) {
                Ok(s) => s.resolve_exprs(arguments@, 0),
                Err(e) => Err(e),
            },
            Expr::Get { object, name } => self.resolve_expr(*object),
            Expr::SetField { object, name, value } => match self.resolve_expr(*value) {
                Ok(s) => s.resolve_expr(*object),
                Err(e) => Err(e),
            },
            Expr::This { keyword } => {
                if self.current_class == ClassType::Absent {
                    Err(ResolverErrorView::SyntaxError("Can't use 'this' outside of a class"@))
                } else {
                    Ok(self.resolve_local(keyword))
                }
            },
            Expr::Super { keyword, method } => {
                if self.current_class == ClassType::Absent {
                    Err(ResolverErrorView::SyntaxError("Can't use 'super' outside of a class"@))
                } else if self.current_class != ClassType::SubClass {
                    Err(
                        ResolverErrorView::SyntaxError(
                            "Can't use 'super' in a class with no superclass"@,
                        ),
                    )
                } else {
                    Ok(self.resolve_local(keyword))
                }
            },
        }
    }

    /// Resolves the expressions from index `from` on, in order.
    pub open spec fn resolve_exprs(self, exprs: Seq<Expr>, from: int) -> Result<
        Resolution,
        ResolverErrorView,
    >
        decreases exprs, exprs.len() - from,
    {
        if from < 0 || from >= exprs.len() {
            Ok(self)
        } else {
            match self.resolve_expr(exprs[from]) {
                Ok(s) => s.resolve_exprs(exprs, from + 1),
                Err(e) => Err(e),
            }
        }
    }

    /// Declares and defines the parameters from index `from` on, in order.
    pub open spec fn introduce_all(self, params: Seq<Token>, from: int) -> Result<
        Resolution,
        ResolverErrorView,
    >
        decreases params.len() - from,
    {
        if from < 0 || from >= params.len() {
            Ok(self)
        } else {
            match self.introduce(params[from].lexeme@) {
                Ok(s) => s.introduce_all(params, from + 1),
                Err(e) => Err(e),
            }
        }
    }

    /// Resolves a statement.
    pub open spec fn resolve_stmt(self, stmt: Stmt) -> Result<Resolution, ResolverErrorView>
        decreases stmt, 1int,
    {
        match stmt {
            Stmt::Expression(e) => self.resolve_expr(e),
            Stmt::Print(e) => self.resolve_expr(e),
            Stmt::Var { name, initializer } => match self.declare(name.lexeme@) {
                Ok(s) => match initializer {
                    Some(e) => match s.resolve_expr(e) {
                        Ok(t) => Ok(t.define(name.lexeme@)),
                        Err(e) => Err(e),
                    },
                    None => Ok(s.define(name.lexeme@)),
                },
                Err(e) => Err(e),
            },
            Stmt::Block(statements) => match self.begin_scope().resolve_stmts(statements@, 0) {
                Ok(s) => Ok(s.end_scope()),
                Err(e) => Err(e),
            },
            Stmt::If { condition, then_branch, else_branch } => match self.resolve_expr(condition) {
                Ok(s) => match s.resolve_stmt(*then_branch) {
                    Ok(t) => match *else_branch {
                        Some(other) => t.resolve_stmt(other),
                        None => Ok(t),
                    },
                    Err(e) => Err(e),
                },
                Err(e) => Err(e),
            },
            Stmt::While { condition, body } => match self.resolve_expr(condition) {
                Ok(s) => s.resolve_stmt(*body),
                Err(e) => Err(e),
            },
            Stmt::Function { name, params, body } => match self.introduce(name.lexeme@) {
                Ok(s) => s.resolve_function(stmt, FunctionType::Function),
                Err(e) => Err(e),
            },
            Stmt::Return { keyword, value } => {
                if self.current_function == FunctionType::Absent {
                    Err(ResolverErrorView::SyntaxError("Return not allowed at top-level code."@))
                } else {
                    match value {
                        Some(e) => {
                            if self.current_function == FunctionType::Initializer {
                                Err(
                                    ResolverErrorView::SyntaxError(
                                        "Cannot return value from initializer."@,
                                    ),
                                )
                            } else {
                                self.resolve_expr(e)
                            }
                        },
                        None => Ok(self),
                    }
                }
            },
            Stmt::Class { name, superclass, methods } => {
                let enclosing = self.current_class;
                match (Resolution { current_class: ClassType::Class, ..self }).introduce(
                    name.lexeme@,
                ) {
                    Ok(s) => match superclass {
                        Some(sc) => {
                            if sc matches Expr::Variable { name: parent } && parent.lexeme@
                                == name.lexeme@ {
                                Err(
                                    ResolverErrorView::SyntaxError(
                                        inherits_itself_text(name.lexeme@),
                                    ),
                                )
                            } else {
                                match (Resolution {
                                    current_class: ClassType::SubClass,
                                    ..s
                                }).resolve_expr(sc) {
                                    Ok(t) => match t.begin_scope().bind(
                                        "super"@,
                                        true,
                                    ).begin_scope().bind("this"@, true).resolve_methods(
                                        methods@,
                                        0,
                                    ) {
                                        Ok(u) => Ok(
                                            Resolution {
                                                current_class: enclosing,
                                                ..u.end_scope().end_scope()
                                            },
                                        ),
                                        Err(e) => Err(e),
                                    },
                                    Err(e) => Err(e),
                                }
                            }
                        },
                        None => match s.begin_scope().bind("this"@, true).resolve_methods(
                            methods@,
                            0,
                        ) {
                            Ok(u) => Ok(Resolution { current_class: enclosing, ..u.end_scope() }),
                            Err(e) => Err(e),
                        },
                    },
                    Err(e) => Err(e),
                }
            },
        }
    }

    /// Resolves the statements from index `from` on, in order.
    pub open spec fn resolve_stmts(self, statements: Seq<Stmt>, from: int) -> Result<
        Resolution,
        ResolverErrorView,
    >
        decreases statements, statements.len() - from,
    {
        if from < 0 || from >= statements.len() {
            Ok(self)
        } else {
            match self.resolve_stmt(statements[from]) {
                Ok(s) => s.resolve_stmts(statements, from + 1),
                Err(e) => Err(e),
            }
        }
    }

    /// Resolves the methods of a class from index `from` on: the one called
    /// `init` as an initializer, the others as methods.
    pub open spec fn resolve_methods(self, methods: Seq<Stmt>, from: int) -> Result<
        Resolution,
        ResolverErrorView,
    >
        decreases methods, methods.len() - from,
    {
        if from < 0 || from >= methods.len() {
            Ok(self)
        } else {
            let kind = match methods[from] {
                Stmt::Function { name, .. } => if name.lexeme@ == "init"@ {
                    FunctionType::Initializer
                } else {
                    FunctionType::Method
                },
                _ => FunctionType::Method,
            };
            match self.resolve_function(methods[from], kind) {
                Ok(s) => s.resolve_methods(methods, from + 1),
                Err(e) => Err(e),
            }
        }
    }

    /// Resolves the parameters and the body of a function declaration, in a
    /// scope of their own, as a function of the kind. What is no function
    /// declaration is left alone.
    pub open spec fn resolve_function(self, stmt: Stmt, kind: FunctionType) -> Result<
        Resolution,
        ResolverErrorView,
    >
        decreases stmt, 0int,
    {
        match stmt {
            Stmt::Function { name, params, body } => {
                let enclosing = self.current_function;
                match (Resolution {
                    current_function: kind,
                    ..self
                }).begin_scope().introduce_all(params@, 0) {
                    Ok(s) => match s.resolve_stmts(body@, 0) {
                        Ok(t) => Ok(Resolution { current_function: enclosing, ..t.end_scope() }),
                        Err(e) => Err(e),
                    },
                    Err(e) => Err(e),
                }
            },
            _ => Ok(self),
        }
    }
}

/// The coordinates that resolving a program gives, or the error that stops
/// it.
pub open spec fn resolution(statements: Seq<Stmt>) -> Result<
    Map<u32, (usize, usize)>,
    ResolverErrorView,
> {
    resolution_from(Map::empty(), statements)
}

/// The coordinates that resolving a program gives where `table` holds those
/// of the program before it, or the error that stops it.
pub open spec fn resolution_from(table: Map<u32, (usize, usize)>, statements: Seq<Stmt>) -> Result<
    Map<u32, (usize, usize)>,
    ResolverErrorView,
> {
    match (Resolution { table, ..Resolution::start() }).resolve_stmts(statements, 0) {
        Ok(s) => Ok(s.table),
        Err(e) => Err(e),
    }
}

impl Resolution {
    /// The state with its coordinates laid over those of `table`.
    pub open spec fn over(self, table: Map<u32, (usize, usize)>) -> Resolution {
        Resolution { table: table.union_prefer_right(self.table), ..self }
    }

    /// The state has as many scopes as `before`, and the same kinds of
    /// function and class around it.
    pub open spec fn shaped_like(self, before: Resolution) -> bool {
        &&& self.scopes.len() == before.scopes.len()
        &&& self.current_function == before.current_function
        &&& self.current_class == before.current_class
    }
}

/// The result with its coordinates laid over those of `table`.
pub open spec fn laid_over(
    r: Result<Resolution, ResolverErrorView>,
    table: Map<u32, (usize, usize)>,
) -> Result<Resolution, ResolverErrorView> {
    match r {
        Ok(s) => Ok(s.over(table)),
        Err(e) => Err(e),
    }
}

/// Recording a reference and laying over a table can be done in either
/// order.
pub proof fn lemma_local_over(state: Resolution, table: Map<u32, (usize, usize)>, name: Token)
    ensures
        state.over(table).resolve_local(name) == state.resolve_local(name).over(table),
        state.resolve_local(name).scopes == state.scopes,
        state.resolve_local(name).shaped_like(state),
{
    assert(state.over(table).resolve_local(name).table =~= state.resolve_local(name).over(
        table,
    ).table);
}

/// Resolving an expression changes the coordinates only, and only by what
/// it records: from coordinates laid over a table it gives the same, laid
/// over that table.
pub proof fn lemma_expr_over(state: Resolution, table: Map<u32, (usize, usize)>, expr: Expr)
    ensures
        state.over(table).resolve_expr(expr) == laid_over(state.resolve_expr(expr), table),
        state.resolve_expr(expr) matches Ok(s) ==> s.scopes == state.scopes && s.shaped_like(state),
    decreases expr, 0int,
{
    match expr {
        Expr::Literal { .. } => {},
        Expr::Variable { name } => {
            lemma_local_over(state, table, name);
        },
        Expr::Assign { name, value } => {
            lemma_expr_over(state, table, *value);
            match state.resolve_expr(*value) {
                Ok(s) => {
                    lemma_local_over(s, table, name);
                },
                Err(_) => {},
            }
        },
        Expr::Binary { left, operator, right } => {
            lemma_expr_over(state, table, *left);
            match state.resolve_expr(*left) {
                Ok(s) => {
                    lemma_expr_over(s, table, *right);
                },
                Err(_) => {},
            }
        },
        Expr::Logical { left, operator, right } => {
            lemma_expr_over(state, table, *left);
            match state.resolve_expr(*left) {
                Ok(s) => {
                    lemma_expr_over(s, table, *right);
                },
                Err(_) => {},
            }
        },
        Expr::Grouping { expr: inner } => {
            lemma_expr_over(state, table, *inner);
        },
        Expr::Unary { operator, right } => {
            lemma_expr_over(state, table, *right);
        },
        Expr::Call { callee, paren, arguments } => {
            lemma_expr_over(state, table, *callee);
            match state.resolve_expr(*callee) {
                Ok(s) => {
                    lemma_exprs_over(s, table, arguments@, 0);
                },
                Err(_) => {},
            }
        },
        Expr::Get { object, name } => {
            lemma_expr_over(state, table, *object);
        },
        Expr::SetField { object, name, value } => {
            lemma_expr_over(state, table, *value);
            match state.resolve_expr(*value) {
                Ok(s) => {
                    lemma_expr_over(s, table, *object);
                },
                Err(_) => {},
            }
        },
        Expr::This { keyword } => {
            lemma_local_over(state, table, keyword);
        },
        Expr::Super { keyword, method } => {
            lemma_local_over(state, table, keyword);
        },
    }
}

/// As `lemma_expr_over`, for the expressions of a list from `from` on.
pub proof fn lemma_exprs_over(
    state: Resolution,
    table: Map<u32, (usize, usize)>,
    exprs: Seq<Expr>,
    from: int,
)
    ensures
        state.over(table).resolve_exprs(exprs, from) == laid_over(
            state.resolve_exprs(exprs, from),
            table,
        ),
        state.resolve_exprs(exprs, from) matches Ok(s) ==> s.scopes == state.scopes
            && s.shaped_like(state),
    decreases exprs, exprs.len() - from,
{
    if 0 <= from < exprs.len() {
        lemma_expr_over(state, table, exprs[from]);
        match state.resolve_expr(exprs[from]) {
            Ok(s) => {
                lemma_exprs_over(s, table, exprs, from + 1);
            },
            Err(_) => {},
        }
    } else {
        assert(state.over(table).table =~= table.union_prefer_right(state.table));
    }
}

/// As `lemma_stmt_over`, for the parameters of a function from `from` on.
pub proof fn lemma_introduce_over(
    state: Resolution,
    table: Map<u32, (usize, usize)>,
    params: Seq<Token>,
    from: int,
)
    ensures
        state.over(table).introduce_all(params, from) == laid_over(
            state.introduce_all(params, from),
            table,
        ),
        state.introduce_all(params, from) matches Ok(s) ==> s.shaped_like(state),
    decreases params.len() - from,
{
    if 0 <= from < params.len() {
        match state.introduce(params[from].lexeme@) {
            Ok(s) => {
                lemma_introduce_over(s, table, params, from + 1);
            },
            Err(_) => {},
        }
    }
}

/// Resolving a statement leaves as many scopes as it found, and the kinds of
/// function and class around it; and from coordinates laid over a table it
/// gives the same, laid over that table.
pub proof fn lemma_stmt_over(state: Resolution, table: Map<u32, (usize, usize)>, stmt: Stmt)
    ensures
        state.over(table).resolve_stmt(stmt) == laid_over(state.resolve_stmt(stmt), table),
        state.resolve_stmt(stmt) matches Ok(s) ==> s.shaped_like(state),
    decreases stmt, 1int,
{
    match stmt {
        Stmt::Expression(e) => {
            lemma_expr_over(state, table, e);
        },
        Stmt::Print(e) => {
            lemma_expr_over(state, table, e);
        },
        Stmt::Var { name, initializer } => {
            match state.declare(name.lexeme@) {
                Ok(s) => match initializer {
                    Some(e) => {
                        lemma_expr_over(s, table, e);
                    },
                    None => {},
                },
                Err(_) => {},
            }
        },
        Stmt::Block(statements) => {
            lemma_stmts_over(state.begin_scope(), table, statements@, 0);
        },
        Stmt::If { condition, then_branch, else_branch } => {
            lemma_expr_over(state, table, condition);
            match state.resolve_expr(condition) {
                Ok(s) => {
                    lemma_stmt_over(s, table, *then_branch);
                    match s.resolve_stmt(*then_branch) {
                        Ok(t) => match *else_branch {
                            Some(other) => {
                                lemma_stmt_over(t, table, other);
                            },
                            None => {},
                        },
                        Err(_) => {},
                    }
                },
                Err(_) => {},
            }
        },
        Stmt::While { condition, body } => {
            lemma_expr_over(state, table, condition);
            match state.resolve_expr(condition) {
                Ok(s) => {
                    lemma_stmt_over(s, table, *body);
                },
                Err(_) => {},
            }
        },
        Stmt::Function { name, params, body } => {
            match state.introduce(name.lexeme@) {
                Ok(s) => {
                    lemma_function_over(s, table, stmt, FunctionType::Function);
                },
                Err(_) => {},
            }
        },
        Stmt::Return { keyword, value } => {
            match value {
                Some(e) => {
                    lemma_expr_over(state, table, e);
                },
                None => {},
            }
        },
        Stmt::Class { .. } => {
            lemma_class_over(state, table, stmt);
        },
    }
}

/// As `lemma_stmt_over`, for a class declaration.
pub proof fn lemma_class_over(state: Resolution, table: Map<u32, (usize, usize)>, stmt: Stmt)
    requires
        stmt is Class,
    ensures
        state.over(table).resolve_stmt(stmt) == laid_over(state.resolve_stmt(stmt), table),
        state.resolve_stmt(stmt) matches Ok(s) ==> s.shaped_like(state),
    decreases stmt, 0int,
{
    match stmt {
        Stmt::Class { name, superclass, methods } => {
            let entered = Resolution { current_class: ClassType::Class, ..state };
            match entered.introduce(name.lexeme@) {
                Ok(s) => match superclass {
                    Some(sc) => {
                        let sub = Resolution { current_class: ClassType::SubClass, ..s };
                        lemma_expr_over(sub, table, sc);
                        match sub.resolve_expr(sc) {
                            Ok(t) => {
                                lemma_methods_over(
                                    t.begin_scope().bind("super"@, true).begin_scope().bind(
                                        "this"@,
                                        true,
                                    ),
                                    table,
                                    methods@,
                                    0,
                                );
                            },
                            Err(_) => {},
                        }
                    },
                    None => {
                        lemma_methods_over(
                            s.begin_scope().bind("this"@, true),
                            table,
                            methods@,
                            0,
                        );
                    },
                },
                Err(_) => {},
            }
        },
        _ => {},
    }
}

/// As `lemma_stmt_over`, for the statements of a list from `from` on.
pub proof fn lemma_stmts_over(
    state: Resolution,
    table: Map<u32, (usize, usize)>,
    statements: Seq<Stmt>,
    from: int,
)
    ensures
        state.over(table).resolve_stmts(statements, from) == laid_over(
            state.resolve_stmts(statements, from),
            table,
        ),
        state.resolve_stmts(statements, from) matches Ok(s) ==> s.shaped_like(state),
    decreases statements, statements.len() - from,
{
    if 0 <= from < statements.len() {
        lemma_stmt_over(state, table, statements[from]);
        match state.resolve_stmt(statements[from]) {
            Ok(s) => {
                lemma_stmts_over(s, table, statements, from + 1);
            },
            Err(_) => {},
        }
    }
}

/// As `lemma_stmt_over`, for the methods of a class from `from` on.
pub proof fn lemma_methods_over(
    state: Resolution,
    table: Map<u32, (usize, usize)>,
    methods: Seq<Stmt>,
    from: int,
)
    ensures
        state.over(table).resolve_methods(methods, from) == laid_over(
            state.resolve_methods(methods, from),
            table,
        ),
        state.resolve_methods(methods, from) matches Ok(s) ==> s.shaped_like(state),
    decreases methods, methods.len() - from,
{
    if 0 <= from < methods.len() {
        let kind = match methods[from] {
            Stmt::Function { name, .. } => if name.lexeme@ == "init"@ {
                FunctionType::Initializer
            } else {
                FunctionType::Method
            },
            _ => FunctionType::Method,
        };
        lemma_function_over(state, table, methods[from], kind);
        match state.resolve_function(methods[from], kind) {
            Ok(s) => {
                lemma_methods_over(s, table, methods, from + 1);
            },
            Err(_) => {},
        }
    }
}

/// As `lemma_stmt_over`, for the parameters and the body of a function.
pub proof fn lemma_function_over(
    state: Resolution,
    table: Map<u32, (usize, usize)>,
    stmt: Stmt,
    kind: FunctionType,
)
    ensures
        state.over(table).resolve_function(stmt, kind) == laid_over(
            state.resolve_function(stmt, kind),
            table,
        ),
        state.resolve_function(stmt, kind) matches Ok(s) ==> s.shaped_like(state),
    decreases stmt, 0int,
{
    match stmt {
        Stmt::Function { name, params, body } => {
            let entered = (Resolution { current_function: kind, ..state }).begin_scope();
            lemma_introduce_over(entered, table, params@, 0);
            match entered.introduce_all(params@, 0) {
                Ok(s) => {
                    lemma_stmts_over(s, table, body@, 0);
                },
                Err(_) => {},
            }
        },
        _ => {},
    }
}

/// Resolving is idempotent: a resolver that has resolved a program gives,
/// when it resolves the program once more, the coordinates that it gave the
/// first time.
pub proof fn lemma_double_resolve(statements: Seq<Stmt>)
    requires
        resolution(statements) is Ok,
    ensures
        Resolution::start().resolve_stmts(statements, 0)->Ok_0.resolve_stmts(statements, 0) is Ok,
        Resolution::start().resolve_stmts(statements, 0)->Ok_0.resolve_stmts(
            statements,
            0,
        )->Ok_0.table == resolution(statements)->Ok_0,
{
    let fresh = Resolution::start();
    let once = fresh.resolve_stmts(statements, 0)->Ok_0;
    lemma_stmts_over(fresh, once.table, statements, 0);
    assert(fresh.over(once.table).table =~= once.table);
    assert(once.scopes =~= fresh.scopes);
    assert(once == fresh.over(once.table));
    assert(once.over(once.table).table =~= once.table);
}

/// A scope as the resolver holds it, as a `ScopeView`.
pub open spec fn scope_view(scope: Vec<(String, bool)>) -> ScopeView {
    scope@.map_values(|e: (String, bool)| (e.0@, e.1))
}

/// What an operation of the resolver gave is what the model gives: the state
/// after it on success, and the same error otherwise.
pub open spec fn agrees(
    expected: Result<Resolution, ResolverErrorView>,
    after: Resolution,
    r: Result<(), ResolverError>,
) -> bool {
    match expected {
        Ok(s) => r is Ok && after == s,
        Err(e) => r is Err && r->Err_0@ == e,
    }
}

/// The static pass that finds, for each reference to a local variable, how
/// many scopes out its binding lies and at which index.
pub struct Resolver {
    pub scopes: Vec<Vec<(String, bool)>>,
    pub current_function: FunctionType,
    pub current_class: ClassType,
    pub _resolved_data: HashMap<u32, (usize, usize)>,
}

impl View for Resolver {
    type V = Resolution;

    open spec fn view(&self) -> Resolution {
        Resolution {
            scopes: self.scopes@.map_values(|s: Vec<(String, bool)>| scope_view(s)),
            current_function: self.current_function,
            current_class: self.current_class,
            table: self._resolved_data@,
        }
    }
}

/// The index of the name in the scope.
fn find_in(scope: &Vec<(String, bool)>, name: &String) -> (r: Option<usize>)
    ensures
        match r {
            Some(i) => index_in(scope_view(*scope), name@, 0) == Some(i as int) && i < scope@.len(),
            None => index_in(scope_view(*scope), name@, 0) is None,
        },
{
    let mut i: usize = 0;
    while i < scope.len()
        invariant
            i <= scope@.len(),
            index_in(scope_view(*scope), name@, 0) == index_in(scope_view(*scope), name@, i as int),
        decreases scope@.len() - i,
    {
        if scope[i].0 == *name {
            return Some(i);
        }
        i += 1;
    }
    None
}

/// A syntax error with the message made of three parts.
fn syntax_error(before: &str, name: &String, after: &str) -> (r: ResolverError)
    ensures
        r@ == ResolverErrorView::SyntaxError(before@ + name@ + after@),
{
    let mut msg = String::from_str(before);
    msg.append(name.as_str());
    msg.append(after);
    ResolverError::SyntaxError(msg)
}

impl Resolver {
    /// A resolver outside all scopes, functions and classes, with nothing
    /// found yet.
    pub fn new() -> (r: Self)
        ensures
            r@ == Resolution::start(),
    {
        let r = Resolver {
            scopes: Vec::new(),
            current_function: FunctionType::Absent,
            current_class: ClassType::Absent,
            _resolved_data: HashMap::new(),
        };
        assert(r@.scopes =~= Seq::<ScopeView>::empty());
        r
    }

    /// A resolver outside all scopes, functions and classes, which adds to
    /// the coordinates given.
    pub fn continuing(table: HashMap<u32, (usize, usize)>) -> (r: Self)
        ensures
            r@ == (Resolution { table: table@, ..Resolution::start() }),
    {
        let r = Resolver {
            scopes: Vec::new(),
            current_function: FunctionType::Absent,
            current_class: ClassType::Absent,
            _resolved_data: table,
        };
        assert(r@.scopes =~= Seq::<ScopeView>::empty());
        r
    }

    /// Opens a scope.
    pub fn begin_scope(&mut self)
        ensures
            final(self)@ == old(self)@.begin_scope(),
    {
        self.scopes.push(Vec::new());
        assert(scope_view(self.scopes@.last()) =~= Seq::empty());
        assert(self@.scopes =~= old(self)@.scopes.push(Seq::empty()));
    }

    /// Closes the innermost scope.
    pub fn end_scope(&mut self)
        ensures
            final(self)@ == old(self)@.end_scope(),
    {
        let _ = self.scopes.pop();
        assert(self@.scopes =~= old(self)@.end_scope().scopes);
    }

    /// Adds a name at the end of the innermost scope.
    fn bind(&mut self, name: String, defined: bool)
        ensures
            final(self)@ == old(self)@.bind(name@, defined),
    {
        let n = self.scopes.len();
        if n > 0 {
            self.scopes[n - 1].push((name, defined));
            assert(scope_view(self.scopes@[n - 1]) =~= scope_view(old(self).scopes@[n - 1]).push(
                (name@, defined),
            ));
            assert(self@.scopes =~= old(self)@.bind(name@, defined).scopes);
        }
    }

    /// Declares a name in the innermost scope, as not yet defined. A name
    /// that the scope has already is an error. Outside all scopes nothing is
    /// declared.
    pub fn declare(&mut self, name: &Token) -> (r: Result<(), ResolverError>)
        ensures
            agrees(old(self)@.declare(name.lexeme@), final(self)@, r),
            r is Err ==> final(self)@ == old(self)@,
    {
        let n = self.scopes.len();
        if n > 0 {
            match find_in(&self.scopes[n - 1], &name.lexeme) {
                Some(_) => {
                    let mut msg = String::from_str("Already a variable with the name '");
                    msg.append(name.lexeme.as_str());
                    msg.append("' in this scope.");
                    return Err(ResolverError::DuplicateVariable(msg));
                },
                None => {},
            }
        }
        self.bind(name.lexeme.clone(), false);
        Ok(())
    }

    /// Marks the name in the innermost scope as defined.
    pub fn define(&mut self, name: &Token) -> (r: Result<(), ResolverError>)
        ensures
            r is Ok,
            final(self)@ == old(self)@.define(name.lexeme@),
    {
        let n = self.scopes.len();
        if n > 0 {
            match find_in(&self.scopes[n - 1], &name.lexeme) {
                Some(i) => {
                    self.scopes[n - 1].set(i, (name.lexeme.clone(), true));
                    assert(scope_view(self.scopes@[n - 1]) =~= scope_view(
                        old(self).scopes@[n - 1],
                    ).update(i as int, (name.lexeme@, true)));
                    assert(self@.scopes =~= old(self)@.define(name.lexeme@).scopes);
                },
                None => {},
            }
        }
        Ok(())
    }

    /// Records the coordinates of a reference, where a scope has its name.
    pub fn resolve_local(&mut self, name: &Token) -> (r: Result<(), ResolverError>)
        ensures
            r is Ok,
            final(self)@ == old(self)@.resolve_local(*name),
    {
        let n = self.scopes.len();
        let mut depth: usize = 0;
        while depth < n
            invariant
                n == self.scopes@.len(),
                depth <= n,
                *self == *old(self),
                locate(self@.scopes, name.lexeme@, 0) == locate(
                    self@.scopes,
                    name.lexeme@,
                    depth as int,
                ),
            decreases n - depth,
        {
            match find_in(&self.scopes[n - 1 - depth], &name.lexeme) {
                Some(index) => {
                    let _ = self._resolved_data.insert(name.id, (depth, index));
                    return Ok(());
                },
                None => {},
            }
            depth += 1;
        }
        Ok(())
    }

    /// Whether the name is declared in the innermost scope and not yet
    /// defined.
    fn reads_own_initializer(&self, name: &String) -> (r: bool)
        ensures
            r == self@.in_own_initializer(name@),
    {
        let n = self.scopes.len();
        if n == 0 {
            return false;
        }
        match find_in(&self.scopes[n - 1], name) {
            Some(i) => !self.scopes[n - 1][i].1,
            None => false,
        }
    }

    /// Resolves an expression.
    pub fn resolve_expr(&mut self, expr: &Expr) -> (r: Result<(), ResolverError>)
        ensures
            agrees(old(self)@.resolve_expr(*expr), final(self)@, r),
        decreases expr, 0int,
    {
        match expr {
            Expr::Literal { .. } => Ok(()),
            Expr::Variable { name } => {
                if self.reads_own_initializer(&name.lexeme) {
                    return Err(
                        syntax_error(
                            "Can't read local variable '",
                            &name.lexeme,
                            "' in its own initializer",
                        ),
                    );
                }
                self.resolve_local(name)
            },
            Expr::Assign { name, value } => {
                self.resolve_expr(value)?;
                self.resolve_local(name)
            },
            Expr::Binary { left, operator: _, right } => {
                self.resolve_expr(left)?;
                self.resolve_expr(right)
            },
            Expr::Logical { left, operator: _, right } => {
                self.resolve_expr(left)?;
                self.resolve_expr(right)
            },
            Expr::Grouping { expr: inner } => self.resolve_expr(inner),
            Expr::Unary { operator: _, right } => self.resolve_expr(right),
            Expr::Call { callee, paren: _, arguments } => {
                self.resolve_expr(callee)?;
                self.resolve_exprs(arguments, 0)
            },
            Expr::Get { object, name: _ } => self.resolve_expr(object),
            Expr::SetField { object, name: _, value } => {
                self.resolve_expr(value)?;
                self.resolve_expr(object)
            },
            Expr::This { keyword } => {
                if self.current_class == ClassType::Absent {
                    return Err(
                        ResolverError::SyntaxError(
                            String::from_str("Can't use 'this' outside of a class"),
                        ),
                    );
                }
                self.resolve_local(keyword)
            },
            Expr::Super { keyword, method: _ } => {
                if self.current_class == ClassType::Absent {
                    return Err(
                        ResolverError::SyntaxError(
                            String::from_str("Can't use 'super' outside of a class"),
                        ),
                    );
                }
                if self.current_class != ClassType::SubClass {
                    return Err(
                        ResolverError::SyntaxError(
                            String::from_str("Can't use 'super' in a class with no superclass"),
                        ),
                    );
                }
                self.resolve_local(keyword)
            },
        }
    }

    /// Resolves the expressions from index `from` on, in order.
    pub fn resolve_exprs(&mut self, exprs: &Vec<Expr>, from: usize) -> (r: Result<
        (),
        ResolverError,
    >)
        ensures
            agrees(old(self)@.resolve_exprs(exprs@, from as int), final(self)@, r),
        decreases exprs, exprs.len() - from,
    {
        if from >= exprs.len() {
            return Ok(());
        }
        self.resolve_expr(&exprs[from])?;
        self.resolve_exprs(exprs, from + 1)
    }

    /// Declares and defines the parameters from index `from` on, in order.
    fn introduce_all(&mut self, params: &Vec<Token>, from: usize) -> (r: Result<(), ResolverError>)
        ensures
            agrees(old(self)@.introduce_all(params@, from as int), final(self)@, r),
        decreases params.len() - from,
    {
        if from >= params.len() {
            return Ok(());
        }
        self.declare(&params[from])?;
        self.define(&params[from])?;
        self.introduce_all(params, from + 1)
    }

    /// Resolves a statement.
    pub fn resolve_stmt(&mut self, stmt: &Stmt) -> (r: Result<(), ResolverError>)
        ensures
            agrees(old(self)@.resolve_stmt(*stmt), final(self)@, r),
        decreases stmt, 1int,
    {
        match stmt {
            Stmt::Expression(e) => self.resolve_expr(e),
            Stmt::Print(e) => self.resolve_expr(e),
            Stmt::Var { name, initializer } => {
                self.declare(name)?;
                match initializer {
                    Some(e) => {
                        self.resolve_expr(e)?;
                    },
                    None => {},
                }
                self.define(name)
            },
            Stmt::Block(statements) => {
                self.begin_scope();
                self.resolve_stmts(statements, 0)?;
                self.end_scope();
                Ok(())
            },
            Stmt::If { condition, then_branch, else_branch } => {
                self.resolve_expr(condition)?;
                self.resolve_stmt(then_branch)?;
                match &**else_branch {
                    Some(other) => self.resolve_stmt(other),
                    None => Ok(()),
                }
            },
            Stmt::While { condition, body } => {
                self.resolve_expr(condition)?;
                self.resolve_stmt(body)
            },
            Stmt::Function { name, params: _, body: _ } => {
                self.declare(name)?;
                self.define(name)?;
                self.resolve_function(stmt, FunctionType::Function)
            },
            Stmt::Return { keyword: _, value } => {
                if self.current_function == FunctionType::Absent {
                    return Err(
                        ResolverError::SyntaxError(
                            String::from_str("Return not allowed at top-level code."),
                        ),
                    );
                }
                match value {
                    Some(e) => {
                        if self.current_function == FunctionType::Initializer {
                            return Err(
                                ResolverError::SyntaxError(
                                    String::from_str("Cannot return value from initializer."),
                                ),
                            );
                        }
                        self.resolve_expr(e)
                    },
                    None => Ok(()),
                }
            },
            Stmt::Class { name, superclass, methods } => {
                let enclosing = self.current_class;
                self.current_class = ClassType::Class;
                self.declare(name)?;
                self.define(name)?;
                match superclass {
                    Some(sc) => {
                        match sc {
                            Expr::Variable { name: parent } => {
                                if parent.lexeme == name.lexeme {
                                    return Err(
                                        syntax_error(
                                            "Error at '",
                                            &name.lexeme,
                                            "': A class cannot inherit from itself.",
                                        ),
                                    );
                                }
                            },
                            _ => {},
                        }
                        self.current_class = ClassType::SubClass;
                        self.resolve_expr(sc)?;
                        self.begin_scope();
                        self.bind(String::from_str("super"), true);
                    },
                    None => {},
                }
                self.begin_scope();
                self.bind(String::from_str("this"), true);
                self.resolve_methods(methods, 0)?;
                self.end_scope();
                match superclass {
                    Some(_) => {
                        self.end_scope();
                    },
                    None => {},
                }
                self.current_class = enclosing;
                Ok(())
            },
        }
    }

    /// Resolves the statements from index `from` on, in order.
    pub fn resolve_stmts(&mut self, statements: &Vec<Stmt>, from: usize) -> (r: Result<
        (),
        ResolverError,
    >)
        ensures
            agrees(old(self)@.resolve_stmts(statements@, from as int), final(self)@, r),
        decreases statements, statements.len() - from,
    {
        if from >= statements.len() {
            return Ok(());
        }
        self.resolve_stmt(&statements[from])?;
        self.resolve_stmts(statements, from + 1)
    }

    /// Resolves the methods of a class from index `from` on.
    fn resolve_methods(&mut self, methods: &Vec<Stmt>, from: usize) -> (r: Result<
        (),
        ResolverError,
    >)
        ensures
            agrees(old(self)@.resolve_methods(methods@, from as int), final(self)@, r),
        decreases methods, methods.len() - from,
    {
        if from >= methods.len() {
            return Ok(());
        }
        let kind = match &methods[from] {
            Stmt::Function { name, .. } => {
                if name.lexeme == String::from_str("init") {
                    FunctionType::Initializer
                } else {
                    FunctionType::Method
                }
            },
            _ => FunctionType::Method,
        };
        self.resolve_function(&methods[from], kind)?;
        self.resolve_methods(methods, from + 1)
    }

    /// Resolves the parameters and the body of a function declaration, in a
    /// scope of their own, as a function of the kind.
    pub fn resolve_function(&mut self, stmt: &Stmt, func_type: FunctionType) -> (r: Result<
        (),
        ResolverError,
    >)
        ensures
            agrees(old(self)@.resolve_function(*stmt, func_type), final(self)@, r),
        decreases stmt, 0int,
    {
        match stmt {
            Stmt::Function { name: _, params, body } => {
                let enclosing = self.current_function;
                self.current_function = func_type;
                self.begin_scope();
                self.introduce_all(params, 0)?;
                self.resolve_stmts(body, 0)?;
                self.end_scope();
                self.current_function = enclosing;
                Ok(())
            },
            _ => Ok(()),
        }
    }

    /// Resolves a program: the coordinates of every reference to a local
    /// variable, by the number of the reference's token, or the first error.
    /// References to global variables are not in the table.
    pub fn resolve(&mut self, statements: &Vec<Stmt>) -> (r: Result<
        HashMap<u32, (usize, usize)>,
        ResolverError,
    >)
        ensures
            match old(self)@.resolve_stmts(statements@, 0) {
                Ok(s) => r is Ok && r->Ok_0@ == s.table && final(self)@ == s,
                Err(e) => r is Err && r->Err_0@ == e,
            },
    {
        self.resolve_stmts(statements, 0)?;
        Ok(self._resolved_data.clone())
    }
}

} // verus!
