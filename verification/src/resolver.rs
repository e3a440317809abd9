use vstd::prelude::*;

use crate::expressions::{Expr, SpecExpr, Var};
use crate::grammar::unwrap_message;
use crate::lox_error::Halt;
use crate::statements::{
    copy_stmt,
    exprs_view,
    lemma_block_view,
    lemma_call_view,
    lemma_class_view,
    stmts_view,
    SpecStmt,
    Statement,
};
use crate::tokens::Token;
use std::collections::VecDeque;
use vstd::std_specs::vecdeque::VecDequeAdditionalSpecFns;

verus! {

/// The kind of class declaration that the resolver is in.
#[derive(Debug, PartialEq, Eq, Structural, Clone, Copy)]
pub enum ClassType {
    NoClass,
    Class,
}

/// The kind of function that the resolver is in.
#[derive(Debug, PartialEq, Eq, Structural, Clone, Copy)]
pub enum FunctionType {
    NoFunction,
    Function,
    Method,
    Initializer,
}

/// What the resolver knows at a point of the program: the scopes that are
/// open, innermost last, each with its names in the order they were first
/// declared and whether each is defined yet; and the kinds of class and
/// function it is in.
pub struct ResolverModel {
    pub scopes: Seq<Seq<(Seq<char>, bool)>>,
    pub class: ClassType,
    pub function: FunctionType,
}

// ------------------------------- scopes -----------------------------------
/// The last entry of `scope` among its first `n` for `name`.
pub open spec fn scope_find(scope: Seq<(Seq<char>, bool)>, name: Seq<char>, n: int) -> Option<int>
    decreases n,
{
    if n <= 0 || n > scope.len() {
        None
    } else if scope[n - 1].0 == name {
        Some(n - 1)
    } else {
        scope_find(scope, name, n - 1)
    }
}

/// Whether `name` is defined yet in `scope`, if the scope has it at all.
pub open spec fn scope_get(scope: Seq<(Seq<char>, bool)>, name: Seq<char>) -> Option<bool> {
    match scope_find(scope, name, scope.len() as int) {
        Some(i) => Some(scope[i].1),
        None => None,
    }
}

/// `scope` with `name` marked `defined`: in place if it has the name, else
/// added at its end.
pub open spec fn scope_set(scope: Seq<(Seq<char>, bool)>, name: Seq<char>, defined: bool) -> Seq<
    (Seq<char>, bool),
> {
    match scope_find(scope, name, scope.len() as int) {
        Some(i) => scope.update(i, (name, defined)),
        None => scope.push((name, defined)),
    }
}

/// The initial state: one scope, empty, and no class or function.
pub open spec fn initial_model() -> ResolverModel {
    ResolverModel {
        scopes: seq![Seq::empty()],
        class: ClassType::NoClass,
        function: FunctionType::NoFunction,
    }
}

/// A new innermost scope.
pub open spec fn begin(m: ResolverModel) -> ResolverModel {
    ResolverModel { scopes: m.scopes.push(Seq::empty()), ..m }
}

/// Without the innermost scope; there must be one.
pub open spec fn end(m: ResolverModel) -> Option<ResolverModel> {
    if m.scopes.len() == 0 {
        None
    } else {
        Some(ResolverModel { scopes: m.scopes.drop_last(), ..m })
    }
}

/// `name` marked in the innermost scope, if there is one.
pub open spec fn mark(m: ResolverModel, name: Seq<char>, defined: bool) -> ResolverModel {
    if m.scopes.len() == 0 {
        m
    } else {
        ResolverModel {
            scopes: m.scopes.update(
                m.scopes.len() - 1,
                scope_set(m.scopes.last(), name, defined),
            ),
            ..m
        }
    }
}

/// `name` declared (not defined yet) in the innermost scope.
pub open spec fn declare(m: ResolverModel, name: Seq<char>) -> ResolverModel {
    mark(m, name, false)
}

/// `name` defined in the innermost scope.
pub open spec fn define(m: ResolverModel, name: Seq<char>) -> ResolverModel {
    mark(m, name, true)
}

/// The number of scopes between the innermost one and the one that has
/// `name`, looking from the `i`-th innermost on; the number of scopes when
/// none has it.
pub open spec fn hops_from(scopes: Seq<Seq<(Seq<char>, bool)>>, name: Seq<char>, i: int) -> nat
    decreases scopes.len() - i,
{
    if i < 0 || i >= scopes.len() {
        scopes.len()
    } else if scope_get(scopes[scopes.len() - 1 - i], name) is Some {
        i as nat
    } else {
        hops_from(scopes, name, i + 1)
    }
}

/// A use of `v` resolved against the scopes of `m`.
pub open spec fn resolved_var(m: ResolverModel, v: Var) -> Var {
    Var { identifier: v.identifier, hops: hops_from(m.scopes, v.identifier.lexeme@, 0) as usize }
}

pub open spec fn own_initializer_message(name: Seq<char>) -> Seq<char> {
    "Cant't read local variable in its own initializer. "@ + name
}

pub open spec fn this_outside_class_message() -> Seq<char> {
    "Can't use 'this' outside of a class."@
}

pub open spec fn return_from_initializer_message() -> Seq<char> {
    "Cant't return a value from an initializer."@
}

pub open spec fn class_member_message() -> Seq<char> {
    "Resolver error ClassDecl"@
}

// ----------------------------- expressions --------------------------------
/// The expression `e` with each use of a variable resolved, or why resolving
/// it stops.
pub open spec fn resolved_expr(m: ResolverModel, e: SpecExpr) -> Result<SpecExpr, Seq<char>>
    decreases e,
{
    match e {
        SpecExpr::Binary(l, t, r) => match resolved_expr(m, *l) {
            Ok(l2) => match resolved_expr(m, *r) {
                Ok(r2) => Ok(SpecExpr::Binary(Box::new(l2), t, Box::new(r2))),
                Err(x) => Err(x),
            },
            Err(x) => Err(x),
        },
        SpecExpr::Call(c, args) => match resolved_expr(m, *c) {
            Ok(c2) => match resolved_args(m, args) {
                Ok(a2) => Ok(SpecExpr::Call(Box::new(c2), a2)),
                Err(x) => Err(x),
            },
            Err(x) => Err(x),
        },
        SpecExpr::Grouping(x) => match resolved_expr(m, *x) {
            Ok(x2) => Ok(SpecExpr::Grouping(Box::new(x2))),
            Err(y) => Err(y),
        },
        SpecExpr::Literal(o) => Ok(SpecExpr::Literal(o)),
        SpecExpr::Logical(l, t, r) => match resolved_expr(m, *l) {
            Ok(l2) => match resolved_expr(m, *r) {
                Ok(r2) => Ok(SpecExpr::Logical(Box::new(l2), t, Box::new(r2))),
                Err(x) => Err(x),
            },
            Err(x) => Err(x),
        },
        SpecExpr::Unary(t, x) => match resolved_expr(m, *x) {
            Ok(x2) => Ok(SpecExpr::Unary(t, Box::new(x2))),
            Err(y) => Err(y),
        },
        SpecExpr::Assignment(v, x) => match resolved_expr(m, *x) {
            Ok(x2) => Ok(SpecExpr::Assignment(resolved_var(m, v), Box::new(x2))),
            Err(y) => Err(y),
        },
        SpecExpr::Variable(v) => if m.scopes.len() == 0 {
            Err(unwrap_message())
        } else if scope_get(m.scopes.last(), v.identifier.lexeme@) == Some(false) {
            Err(own_initializer_message(v.identifier.lexeme@))
        } else {
            Ok(SpecExpr::Variable(resolved_var(m, v)))
        },
        SpecExpr::Get(x, n) => match resolved_expr(m, *x) {
            Ok(x2) => Ok(SpecExpr::Get(Box::new(x2), n)),
            Err(y) => Err(y),
        },
        SpecExpr::SetField(a, n, b) => match resolved_expr(m, *a) {
            Ok(a2) => match resolved_expr(m, *b) {
                Ok(b2) => Ok(SpecExpr::SetField(Box::new(a2), n, Box::new(b2))),
                Err(x) => Err(x),
            },
            Err(x) => Err(x),
        },
        SpecExpr::This(v) => if m.class == ClassType::NoClass {
            Err(this_outside_class_message())
        } else {
            Ok(SpecExpr::This(resolved_var(m, v)))
        },
        SpecExpr::Super(v, n) => Ok(SpecExpr::Super(resolved_var(m, v), n)),
    }
}

/// The arguments `args`, each resolved, or why resolving the first one that
/// cannot be stops.
pub open spec fn resolved_args(m: ResolverModel, args: Seq<SpecExpr>) -> Result<
    Seq<SpecExpr>,
    Seq<char>,
>
    decreases args,
{
    if args.len() == 0 {
        Ok(Seq::empty())
    } else {
        match resolved_expr(m, args[0]) {
            Ok(a) => match resolved_args(m, args.subrange(1, args.len() as int)) {
                Ok(rest) => Ok(seq![a] + rest),
                Err(x) => Err(x),
            },
            Err(x) => Err(x),
        }
    }
}

// ----------------------------- statements ---------------------------------
/// `m` after the parameters `params` are declared and defined, in order.
pub open spec fn declare_params(m: ResolverModel, params: Seq<Token>) -> ResolverModel
    decreases params.len(),
{
    if params.len() == 0 {
        m
    } else {
        declare_params(
            define(declare(m, params[0].lexeme@), params[0].lexeme@),
            params.subrange(1, params.len() as int),
        )
    }
}

/// The statement `s` resolved from state `m`, with the state after it, or
/// why resolving stops.
pub open spec fn resolved_stmt(m: ResolverModel, s: SpecStmt) -> Result<
    (ResolverModel, SpecStmt),
    Seq<char>,
>
    decreases s, 1nat,
{
    match s {
        SpecStmt::Block(ss) => match resolved_stmts(begin(m), ss) {
            Ok((m2, ss2)) => match end(m2) {
                Some(m3) => Ok((m3, SpecStmt::Block(ss2))),
                None => Err(unwrap_message()),
            },
            Err(x) => Err(x),
        },
        SpecStmt::VarDecl(t, e) => {
            let m1 = declare(m, t.lexeme@);
            match resolved_expr(m1, e) {
                Ok(e2) => Ok((define(m1, t.lexeme@), SpecStmt::VarDecl(t, e2))),
                Err(x) => Err(x),
            }
        },
        SpecStmt::FuncDecl(n, params, body) => {
            let m1 = define(declare(m, n.lexeme@), n.lexeme@);
            match resolved_function(m1, params, *body) {
                Ok((m2, b2)) => Ok((m2, SpecStmt::FuncDecl(n, params, Box::new(b2)))),
                Err(x) => Err(x),
            }
        },
        SpecStmt::Expr(e) => match resolved_expr(m, e) {
            Ok(e2) => Ok((m, SpecStmt::Expr(e2))),
            Err(x) => Err(x),
        },
        SpecStmt::Print(e) => match resolved_expr(m, e) {
            Ok(e2) => Ok((m, SpecStmt::Print(e2))),
            Err(x) => Err(x),
        },
        SpecStmt::If(c, t, el) => match resolved_expr(m, c) {
            Ok(c2) => match resolved_stmt(m, *t) {
                Ok((m2, t2)) => match el {
                    Some(eb) => match resolved_stmt(m2, *eb) {
                        Ok((m3, e2)) => Ok(
                            (m3, SpecStmt::If(c2, Box::new(t2), Some(Box::new(e2)))),
                        ),
                        Err(x) => Err(x),
                    },
                    None => Ok((m2, SpecStmt::If(c2, Box::new(t2), None))),
                },
                Err(x) => Err(x),
            },
            Err(x) => Err(x),
        },
        SpecStmt::Return(e) => if m.function == FunctionType::Initializer {
            Err(return_from_initializer_message())
        } else {
            match resolved_expr(m, e) {
                Ok(e2) => Ok((m, SpecStmt::Return(e2))),
                Err(x) => Err(x),
            }
        },
        SpecStmt::While(c, b) => match resolved_expr(m, c) {
            Ok(c2) => match resolved_stmt(m, *b) {
                Ok((m2, b2)) => Ok((m2, SpecStmt::While(c2, Box::new(b2)))),
                Err(x) => Err(x),
            },
            Err(x) => Err(x),
        },
        SpecStmt::ClassDecl(n, sup, methods) => {
            let m1 = ResolverModel { class: ClassType::Class, ..m };
            let m2 = begin(define(declare(m1, n.lexeme@), n.lexeme@));
            let m3 = define(m2, "this"@);
            match resolved_methods(m3, methods) {
                Ok((m4, ms2)) => match end(m4) {
                    Some(m5) => Ok(
                        (ResolverModel { class: m.class, ..m5 }, SpecStmt::ClassDecl(n, sup, ms2)),
                    ),
                    None => Err(unwrap_message()),
                },
                Err(x) => Err(x),
            }
        },
    }
}

/// The statements `ss` resolved in order from state `m`, with the state
/// after them, or why resolving stops.
pub open spec fn resolved_stmts(m: ResolverModel, ss: Seq<SpecStmt>) -> Result<
    (ResolverModel, Seq<SpecStmt>),
    Seq<char>,
>
    decreases ss, 0nat,
{
    if ss.len() == 0 {
        Ok((m, Seq::empty()))
    } else {
        match resolved_stmt(m, ss[0]) {
            Ok((m2, s2)) => match resolved_stmts(m2, ss.subrange(1, ss.len() as int)) {
                Ok((m3, rest)) => Ok((m3, seq![s2] + rest)),
                Err(x) => Err(x),
            },
            Err(x) => Err(x),
        }
    }
}

/// A function body resolved in a new scope that holds its parameters.
pub open spec fn resolved_function(m: ResolverModel, params: Seq<Token>, body: SpecStmt) -> Result<
    (ResolverModel, SpecStmt),
    Seq<char>,
>
    decreases body, 2nat,
{
    match resolved_stmt(declare_params(begin(m), params), body) {
        Ok((m2, b2)) => match end(m2) {
            Some(m3) => Ok((m3, b2)),
            None => Err(unwrap_message()),
        },
        Err(x) => Err(x),
    }
}

/// The methods of a class resolved in order, each as a method (or as the
/// initializer, for `init`), or why resolving stops.
pub open spec fn resolved_methods(m: ResolverModel, ms: Seq<SpecStmt>) -> Result<
    (ResolverModel, Seq<SpecStmt>),
    Seq<char>,
>
    decreases ms, 0nat,
{
    if ms.len() == 0 {
        Ok((m, Seq::empty()))
    } else {
        match ms[0] {
            SpecStmt::FuncDecl(n, params, body) => {
                let kind = if n.lexeme@ == "init"@ {
                    FunctionType::Initializer
                } else {
                    FunctionType::Method
                };
                match resolved_function(ResolverModel { function: kind, ..m }, params, *body) {
                    Ok((m2, b2)) => match resolved_methods(
                        ResolverModel { function: m.function, ..m2 },
                        ms.subrange(1, ms.len() as int),
                    ) {
                        Ok((m3, rest)) => Ok(
                            (m3, seq![SpecStmt::FuncDecl(n, params, Box::new(b2))] + rest),
                        ),
                        Err(x) => Err(x),
                    },
                    Err(x) => Err(x),
                }
            },
            _ => Err(class_member_message()),
        }
    }
}

/// A whole program resolved, or why resolving stops.
pub open spec fn resolved_program(ss: Seq<SpecStmt>) -> Result<Seq<SpecStmt>, Seq<char>> {
    match resolved_stmts(initial_model(), ss) {
        Ok((_, ss2)) => Ok(ss2),
        Err(x) => Err(x),
    }
}

// -------------------------------- laws ------------------------------------
/// Entries of the same names are found at the same places.
proof fn lemma_scope_find_agree(
    a: Seq<(Seq<char>, bool)>,
    b: Seq<(Seq<char>, bool)>,
    name: Seq<char>,
    n: int,
)
    requires
        n <= a.len(),
        n <= b.len(),
        forall|j: int| 0 <= j < n ==> a[j].0 == b[j].0,
    ensures
        scope_find(a, name, n) == scope_find(b, name, n),
    decreases n,
{
    if n > 0 {
        lemma_scope_find_agree(a, b, name, n - 1);
    }
}

/// Marking `name` in a scope changes what the scope says of `name`, and of
/// no other name.
proof fn lemma_scope_set_get(
    scope: Seq<(Seq<char>, bool)>,
    name: Seq<char>,
    defined: bool,
    other: Seq<char>,
)
    ensures
        scope_get(scope_set(scope, name, defined), other) == if other == name {
            Some(defined)
        } else {
            scope_get(scope, other)
        },
{
    let s2 = scope_set(scope, name, defined);
    lemma_scope_found(scope, name, scope.len() as int);
    lemma_scope_found(scope, other, scope.len() as int);
    match scope_find(scope, name, scope.len() as int) {
        Some(i) => {
            lemma_scope_find_agree(scope, s2, other, scope.len() as int);
            lemma_scope_found(s2, other, s2.len() as int);
        },
        None => {
            lemma_scope_find_agree(scope, s2, other, scope.len() as int);
        },
    }
}

/// Scope `b` has every name of scope `a`, and each name it says otherwise
/// of than `a` does is defined in it.
pub open spec fn defines_more(a: Seq<(Seq<char>, bool)>, b: Seq<(Seq<char>, bool)>) -> bool {
    &&& forall|k: Seq<char>| #[trigger] scope_get(a, k) is Some ==> scope_get(b, k) is Some
    &&& forall|k: Seq<char>| #[trigger] scope_get(b, k) != scope_get(a, k) ==> scope_get(b, k) == Some(true)
}

/// From `s` to `s2`, as many scopes are open, all but the innermost are
/// unchanged, and the innermost has every name it had, each name that it
/// gained or whose mark changed being defined.
pub open spec fn scopes_kept(s: Seq<Seq<(Seq<char>, bool)>>, s2: Seq<Seq<(Seq<char>, bool)>>) -> bool {
    &&& s2.len() == s.len()
    &&& s.len() > 0 ==> s2.drop_last() == s.drop_last() && defines_more(s.last(), s2.last())
}

/// From `m` to `m2`, the scopes are kept, and the kinds of class and
/// function are the same.
pub open spec fn keeps_scopes(m: ResolverModel, m2: ResolverModel) -> bool {
    &&& scopes_kept(m.scopes, m2.scopes)
    &&& m2.class == m.class
    &&& m2.function == m.function
}

proof fn lemma_kept_refl(s: Seq<Seq<(Seq<char>, bool)>>)
    ensures
        scopes_kept(s, s),
{
}

proof fn lemma_kept_trans(
    a: Seq<Seq<(Seq<char>, bool)>>,
    b: Seq<Seq<(Seq<char>, bool)>>,
    c: Seq<Seq<(Seq<char>, bool)>>,
)
    requires
        scopes_kept(a, b),
        scopes_kept(b, c),
    ensures
        scopes_kept(a, c),
{
    if a.len() > 0 {
        let (x, y, z) = (a.last(), b.last(), c.last());
        assert forall|k: Seq<char>| #[trigger] scope_get(z, k) != scope_get(x, k) implies scope_get(
            z,
            k,
        ) == Some(true) by {
            if scope_get(y, k) != scope_get(x, k) {
                assert(scope_get(y, k) == Some(true));
            }
            if scope_get(z, k) != scope_get(y, k) {
                assert(scope_get(z, k) == Some(true));
            }
        }
        assert forall|k: Seq<char>| #[trigger] scope_get(x, k) is Some implies scope_get(
            z,
            k,
        ) is Some by {
            assert(scope_get(y, k) is Some);
        }
    }
}

/// Declaring and then defining a name keeps the scopes.
proof fn lemma_declare_define_kept(m: ResolverModel, name: Seq<char>)
    ensures
        keeps_scopes(m, define(declare(m, name), name)),
{
    if m.scopes.len() > 0 {
        let m2 = define(declare(m, name), name);
        let (x, z) = (m.scopes.last(), m2.scopes.last());
        let y = scope_set(x, name, false);
        assert(z == scope_set(y, name, true));
        assert forall|k: Seq<char>| #[trigger] scope_get(z, k) != scope_get(x, k) implies scope_get(
            z,
            k,
        ) == Some(true) by {
            lemma_scope_set_get(x, name, false, k);
            lemma_scope_set_get(y, name, true, k);
        }
        assert forall|k: Seq<char>| #[trigger] scope_get(x, k) is Some implies scope_get(
            z,
            k,
        ) is Some by {
            lemma_scope_set_get(x, name, false, k);
            lemma_scope_set_get(y, name, true, k);
        }
        assert(m2.scopes.drop_last() =~= m.scopes.drop_last());
    }
}

/// Defining a name keeps the scopes.
proof fn lemma_define_kept(m: ResolverModel, name: Seq<char>)
    ensures
        keeps_scopes(m, define(m, name)),
{
    if m.scopes.len() > 0 {
        let m2 = define(m, name);
        let (x, z) = (m.scopes.last(), m2.scopes.last());
        assert forall|k: Seq<char>| #[trigger] scope_get(z, k) != scope_get(x, k) implies scope_get(
            z,
            k,
        ) == Some(true) by {
            lemma_scope_set_get(x, name, true, k);
        }
        assert forall|k: Seq<char>| #[trigger] scope_get(x, k) is Some implies scope_get(
            z,
            k,
        ) is Some by {
            lemma_scope_set_get(x, name, true, k);
        }
        assert(m2.scopes.drop_last() =~= m.scopes.drop_last());
    }
}

/// Declaring and defining parameters keeps the scopes.
proof fn lemma_declare_params_kept(m: ResolverModel, params: Seq<Token>)
    ensures
        keeps_scopes(m, declare_params(m, params)),
    decreases params.len(),
{
    if params.len() == 0 {
        lemma_kept_refl(m.scopes);
    } else {
        let m1 = define(declare(m, params[0].lexeme@), params[0].lexeme@);
        lemma_declare_define_kept(m, params[0].lexeme@);
        lemma_declare_params_kept(m1, params.subrange(1, params.len() as int));
        lemma_kept_trans(m.scopes, m1.scopes, declare_params(m1, params.subrange(1, params.len() as int)).scopes);
    }
}

/// Resolving a statement leaves as many scopes open as before, leaves all
/// but the innermost unchanged, keeps every name of the innermost and ends
/// with each name it declares there defined; the kinds of class and
/// function are as before.
pub proof fn law_stmt_keeps_scopes(m: ResolverModel, s: SpecStmt)
    ensures
        resolved_stmt(m, s) matches Ok((m2, _)) ==> keeps_scopes(m, m2),
    decreases s, 1nat,
{
    lemma_kept_refl(m.scopes);
    match s {
        SpecStmt::Block(ss) => {
            law_stmts_keep_scopes(begin(m), ss);
            if let Ok((m2, _)) = resolved_stmts(begin(m), ss) {
                assert(begin(m).scopes.drop_last() =~= m.scopes);
            }
        },
        SpecStmt::VarDecl(t, e) => {
            lemma_declare_define_kept(m, t.lexeme@);
        },
        SpecStmt::FuncDecl(n, params, body) => {
            let m1 = define(declare(m, n.lexeme@), n.lexeme@);
            lemma_declare_define_kept(m, n.lexeme@);
            lemma_function_keeps_scopes(m1, params, *body);
        },
        SpecStmt::If(c, t, el) => {
            law_stmt_keeps_scopes(m, *t);
            if let Ok((m2, _)) = resolved_stmt(m, *t) {
                if let Some(eb) = el {
                    law_stmt_keeps_scopes(m2, *eb);
                    if let Ok((m3, _)) = resolved_stmt(m2, *eb) {
                        lemma_kept_trans(m.scopes, m2.scopes, m3.scopes);
                    }
                }
            }
        },
        SpecStmt::While(c, b) => {
            law_stmt_keeps_scopes(m, *b);
        },
        SpecStmt::ClassDecl(n, sup, methods) => {
            let m1 = ResolverModel { class: ClassType::Class, ..m };
            let ma = define(declare(m1, n.lexeme@), n.lexeme@);
            let m2 = begin(ma);
            let m3 = define(m2, "this"@);
            lemma_declare_define_kept(m1, n.lexeme@);
            lemma_methods_keep_scopes(m3, methods);
            if let Ok((m4, _)) = resolved_methods(m3, methods) {
                assert(m3.scopes.drop_last() =~= ma.scopes);
            }
        },
        _ => {},
    }
}

/// Resolving statements in order keeps the scopes as one statement does.
pub proof fn law_stmts_keep_scopes(m: ResolverModel, ss: Seq<SpecStmt>)
    ensures
        resolved_stmts(m, ss) matches Ok((m2, _)) ==> keeps_scopes(m, m2),
    decreases ss, 0nat,
{
    lemma_kept_refl(m.scopes);
    if ss.len() > 0 {
        law_stmt_keeps_scopes(m, ss[0]);
        if let Ok((m2, _)) = resolved_stmt(m, ss[0]) {
            law_stmts_keep_scopes(m2, ss.subrange(1, ss.len() as int));
            if let Ok((m3, _)) = resolved_stmts(m2, ss.subrange(1, ss.len() as int)) {
                lemma_kept_trans(m.scopes, m2.scopes, m3.scopes);
            }
        }
    }
}

proof fn lemma_function_keeps_scopes(m: ResolverModel, params: Seq<Token>, body: SpecStmt)
    ensures
        resolved_function(m, params, body) matches Ok((m2, _)) ==> m2.scopes == m.scopes
            && m2.class == m.class && m2.function == m.function,
    decreases body, 2nat,
{
    let m1 = declare_params(begin(m), params);
    lemma_declare_params_kept(begin(m), params);
    law_stmt_keeps_scopes(m1, body);
    if let Ok((m2, _)) = resolved_stmt(m1, body) {
        lemma_kept_trans(begin(m).scopes, m1.scopes, m2.scopes);
        assert(begin(m).scopes.drop_last() =~= m.scopes);
    }
}

proof fn lemma_methods_keep_scopes(m: ResolverModel, ms: Seq<SpecStmt>)
    ensures
        resolved_methods(m, ms) matches Ok((m2, _)) ==> m2.scopes == m.scopes
            && m2.class == m.class && m2.function == m.function,
    decreases ms, 0nat,
{
    if ms.len() > 0 {
        if let SpecStmt::FuncDecl(n, params, body) = ms[0] {
            let kind = if n.lexeme@ == "init"@ {
                FunctionType::Initializer
            } else {
                FunctionType::Method
            };
            let mk = ResolverModel { function: kind, ..m };
            lemma_function_keeps_scopes(mk, params, *body);
            if let Ok((m2, _)) = resolved_function(mk, params, *body) {
                lemma_methods_keep_scopes(
                    ResolverModel { function: m.function, ..m2 },
                    ms.subrange(1, ms.len() as int),
                );
            }
        }
    }
}

proof fn lemma_hops_from(scopes: Seq<Seq<(Seq<char>, bool)>>, name: Seq<char>, i: int)
    requires
        0 <= i <= scopes.len(),
    ensures
        i <= hops_from(scopes, name, i) <= scopes.len(),
        hops_from(scopes, name, i) < scopes.len() ==> scope_get(
            scopes[scopes.len() - 1 - hops_from(scopes, name, i)],
            name,
        ) is Some,
        forall|j: int|
            i <= j < hops_from(scopes, name, i) ==> #[trigger] scope_get(
                scopes[scopes.len() - 1 - j],
                name,
            ) is None,
    decreases scopes.len() - i,
{
    if i < scopes.len() && scope_get(scopes[scopes.len() - 1 - i], name) is None {
        lemma_hops_from(scopes, name, i + 1);
    }
}

/// The number of scopes that resolving gives a use of `name` leads to the
/// innermost scope that has the name; when none has it, it is the number of
/// scopes.
pub proof fn law_hops_nearest(scopes: Seq<Seq<(Seq<char>, bool)>>, name: Seq<char>)
    ensures
        hops_from(scopes, name, 0) <= scopes.len(),
        hops_from(scopes, name, 0) < scopes.len() ==> scope_get(
            scopes[scopes.len() - 1 - hops_from(scopes, name, 0)],
            name,
        ) is Some,
        forall|j: int|
            0 <= j < hops_from(scopes, name, 0) ==> #[trigger] scope_get(
                scopes[scopes.len() - 1 - j],
                name,
            ) is None,
{
    lemma_hops_from(scopes, name, 0);
}

// ------------------------------ the resolver ------------------------------
broadcast use {crate::expressions::group_expr_view, vstd::std_specs::vecdeque::group_vec_dequeue_axioms};

/// An entry that is found is one of the first `n`, and has that name.
proof fn lemma_scope_found(scope: Seq<(Seq<char>, bool)>, name: Seq<char>, n: int)
    ensures
        scope_find(scope, name, n) matches Some(j) ==> 0 <= j < n && j < scope.len()
            && scope[j].0 == name,
    decreases n,
{
    if n > 0 && n <= scope.len() {
        lemma_scope_found(scope, name, n - 1);
    }
}

/// The model of a scope: each name, with whether it is defined yet.
pub open spec fn scope_view(scope: Seq<(String, bool)>) -> Seq<(Seq<char>, bool)> {
    scope.map_values(|e: (String, bool)| (e.0@, e.1))
}

/// Resolves each use of a variable in a program to the number of scopes
/// between the use and the scope that declares it.
pub struct Resolver {
    scopes: Vec<Vec<(String, bool)>>,
    current_class: ClassType,
    current_function: FunctionType,
}

impl View for Resolver {
    type V = ResolverModel;

    closed spec fn view(&self) -> ResolverModel {
        ResolverModel {
            scopes: self.scopes@.map_values(|sc: Vec<(String, bool)>| scope_view(sc@)),
            class: self.current_class,
            function: self.current_function,
        }
    }
}

/// The last entry of `scope` for `name`.
fn scope_index(scope: &Vec<(String, bool)>, name: &String) -> (r: Option<usize>)
    ensures
        match r {
            Some(i) => scope_find(scope_view(scope@), name@, scope@.len() as int) == Some(i as int),
            None => scope_find(scope_view(scope@), name@, scope@.len() as int) is None,
        },
{
    let mut n = scope.len();
    proof {
        lemma_scope_found(scope_view(scope@), name@, scope@.len() as int);
    }
    while n > 0
        invariant
            n <= scope@.len(),
            scope_find(scope_view(scope@), name@, n as int) == scope_find(
                scope_view(scope@),
                name@,
                scope@.len() as int,
            ),
        decreases n,
    {
        if scope[n - 1].0 == *name {
            return Some(n - 1);
        }
        n = n - 1;
    }
    None
}

/// A copy of the tokens `ts`.
fn clone_tokens(ts: &Vec<Token>) -> (r: Vec<Token>)
    ensures
        r@ == ts@,
{
    let mut r: Vec<Token> = Vec::new();
    let mut i: usize = 0;
    while i < ts.len()
        invariant
            i <= ts@.len(),
            r@ == ts@.subrange(0, i as int),
        decreases ts@.len() - i,
    {
        r.push(ts[i].clone());
        assert(r@ =~= ts@.subrange(0, i + 1));
        i = i + 1;
    }
    assert(r@ =~= ts@);
    r
}

impl Resolver {
    /// A resolver in the initial state: one empty scope, outside any class
    /// or function.
    pub fn new() -> (r: Self)
        ensures
            r@ == initial_model(),
    {
        let mut scopes: Vec<Vec<(String, bool)>> = Vec::new();
        scopes.push(Vec::new());
        let r = Resolver {
            scopes,
            current_class: ClassType::NoClass,
            current_function: FunctionType::NoFunction,
        };
        assert(r@.scopes[0] =~= Seq::<(Seq<char>, bool)>::empty());
        assert(r@.scopes =~= initial_model().scopes);
        r
    }

    /// Opens a new innermost scope.
    pub fn begin_scope(&mut self)
        ensures
            final(self)@ == begin(old(self)@),
    {
        self.scopes.push(Vec::new());
        assert(self@.scopes.last() =~= Seq::<(Seq<char>, bool)>::empty());
        assert(self@.scopes =~= begin(old(self)@).scopes);
    }

    /// Closes the innermost scope; there must be one.
    pub fn end_scope(&mut self)
        requires
            old(self)@.scopes.len() > 0,
        ensures
            end(old(self)@) == Some(final(self)@),
    {
        self.scopes.pop();
        assert(self@.scopes =~= old(self)@.scopes.drop_last());
    }

    /// Marks `name` in the innermost scope, if there is one.
    fn mark(&mut self, name: &String, defined: bool)
        ensures
            final(self)@ == mark(old(self)@, name@, defined),
    {
        let ghost m0 = self@;
        match self.scopes.pop() {
            None => {},
            Some(mut top) => {
                let ghost top0 = top@;
                proof {
                    lemma_scope_found(scope_view(top0), name@, top0.len() as int);
                }
                match scope_index(&top, name) {
                    Some(i) => {
                        top.set(i, (name.clone(), defined));
                        assert(scope_view(top@) =~= scope_set(scope_view(top0), name@, defined));
                    },
                    None => {
                        top.push((name.clone(), defined));
                        assert(scope_view(top@) =~= scope_set(scope_view(top0), name@, defined));
                    },
                }
                self.scopes.push(top);
                assert(self@.scopes =~= mark(m0, name@, defined).scopes);
            },
        }
    }

    /// Declares the name of `name` (not defined yet) in the innermost scope.
    fn declare(&mut self, name: &Token)
        ensures
            final(self)@ == declare(old(self)@, name.lexeme@),
    {
        self.mark(&name.lexeme, false);
    }

    /// Defines the name of `name` in the innermost scope.
    fn define(&mut self, name: &Token)
        ensures
            final(self)@ == define(old(self)@, name.lexeme@),
    {
        self.mark(&name.lexeme, true);
    }

    /// The number of scopes between the innermost one and the one that has
    /// `name`; the number of scopes when none has it.
    fn hops(&self, name: &String) -> (r: usize)
        ensures
            r == hops_from(self@.scopes, name@, 0),
    {
        let len = self.scopes.len();
        let mut i: usize = 0;
        while i < len
            invariant
                i <= len,
                len == self.scopes@.len(),
                hops_from(self@.scopes, name@, i as int) == hops_from(self@.scopes, name@, 0),
            decreases len - i,
        {
            if scope_index(&self.scopes[len - 1 - i], name).is_some() {
                return i;
            }
            i = i + 1;
        }
        len
    }

    /// The use `var` resolved against the open scopes.
    fn resolve_var(&self, var: &Var) -> (r: Var)
        ensures
            r == resolved_var(self@, *var),
    {
        Var { identifier: var.identifier.clone(), hops: self.hops(&var.identifier.lexeme) }
    }

    /// Whether the innermost scope has `name` and whether it is defined
    /// yet; there must be a scope.
    fn innermost_get(&self, name: &String) -> (r: Option<bool>)
        requires
            self@.scopes.len() > 0,
        ensures
            r == scope_get(self@.scopes.last(), name@),
    {
        let top = &self.scopes[self.scopes.len() - 1];
        match scope_index(top, name) {
            Some(i) => {
                proof {
                    lemma_scope_found(scope_view(top@), name@, top@.len() as int);
                }
                Some(top[i].1)
            },
            None => None,
        }
    }

    /// Whether the expression `e` resolves; when it does not, the message of
    /// the rule that it breaks.
    fn check_exp(&self, e: &Expr) -> (r: Result<(), String>)
        ensures
            match resolved_expr(self@, e@) {
                Ok(_) => r is Ok,
                Err(m) => r matches Err(y) && y@ == m,
            },
        decreases e,
    {
        match e {
            Expr::Binary(l, t, rt) => {
                proof {
                    crate::expressions::lemma_view_binary(*l, *t, *rt);
                }
                if let Err(m) = self.check_exp(l) {
                    return Err(m);
                }
                self.check_exp(rt)
            },
            Expr::Call(c, args) => {
                proof {
                    lemma_call_view(*c, *args);
                }
                if let Err(m) = self.check_exp(c) {
                    return Err(m);
                }
                self.check_args(args)
            },
            Expr::Grouping(x) => {
                proof {
                    crate::expressions::lemma_view_grouping(*x);
                }
                self.check_exp(x)
            },
            Expr::Literal(o) => {
                proof {
                    crate::expressions::lemma_view_literal(*o);
                }
                Ok(())
            },
            Expr::Logical(l, t, rt) => {
                proof {
                    crate::expressions::lemma_view_logical(*l, *t, *rt);
                }
                if let Err(m) = self.check_exp(l) {
                    return Err(m);
                }
                self.check_exp(rt)
            },
            Expr::Unary(t, x) => {
                proof {
                    crate::expressions::lemma_view_unary(*t, *x);
                }
                self.check_exp(x)
            },
            Expr::Assignment(v, x) => {
                proof {
                    crate::expressions::lemma_view_assignment(*v, *x);
                }
                self.check_exp(x)
            },
            Expr::Variable(v) => {
                proof {
                    crate::expressions::lemma_view_variable(*v);
                }
                if self.scopes.len() == 0 {
                    return Err(String::from_str("called `Option::unwrap()` on a `None` value"));
                }
                if let Some(false) = self.innermost_get(&v.identifier.lexeme) {
                    let mut m = String::from_str("Cant't read local variable in its own initializer. ");
                    m.append(v.name());
                    return Err(m);
                }
                Ok(())
            },
            Expr::Get(x, n) => {
                proof {
                    crate::expressions::lemma_view_get(*x, *n);
                }
                self.check_exp(x)
            },
            Expr::SetField(a, n, b) => {
                proof {
                    crate::expressions::lemma_view_set_field(*a, *n, *b);
                }
                if let Err(m) = self.check_exp(a) {
                    return Err(m);
                }
                self.check_exp(b)
            },
            Expr::This(v) => {
                proof {
                    crate::expressions::lemma_view_this(*v);
                }
                if self.current_class == ClassType::NoClass {
                    return Err(String::from_str("Can't use 'this' outside of a class."));
                }
                Ok(())
            },
            Expr::Super(v, n) => {
                proof {
                    crate::expressions::lemma_view_super(*v, *n);
                }
                Ok(())
            },
        }
    }

    /// Whether the arguments `args` resolve; when they do not, the message of
    /// the rule that the first one that does not breaks.
    fn check_args(&self, args: &Vec<Expr>) -> (r: Result<(), String>)
        ensures
            match resolved_args(self@, exprs_view(args@)) {
                Ok(_) => r is Ok,
                Err(m) => r matches Err(y) && y@ == m,
            },
        decreases args,
    {
        let ghost all = exprs_view(args@);
        let mut i: usize = 0;
        assert(all.subrange(0, all.len() as int) =~= all);
        while i < args.len()
            invariant
                i <= args@.len(),
                all == exprs_view(args@),
                match resolved_args(self@, all.subrange(i as int, all.len() as int)) {
                    Ok(_) => resolved_args(self@, all) is Ok,
                    Err(m) => resolved_args(self@, all) == Err::<Seq<SpecExpr>, Seq<char>>(m),
                },
            decreases args@.len() - i,
        {
            let ghost sub = all.subrange(i as int, all.len() as int);
            assert(sub.subrange(1, sub.len() as int) =~= all.subrange(i + 1, all.len() as int));
            if let Err(m) = self.check_exp(&args[i]) {
                return Err(m);
            }
            i = i + 1;
        }
        Ok(())
    }

    /// The expression `e`, which resolves, with each use of a variable
    /// resolved.
    fn resolve_exp(&self, e: &Expr) -> (r: Expr)
        requires
            resolved_expr(self@, e@) is Ok,
        ensures
            r@ == resolved_expr(self@, e@)->Ok_0,
        decreases e,
    {
        match e {
            Expr::Binary(l, t, rt) => {
                let l2 = self.resolve_exp(l);
                let r2 = self.resolve_exp(rt);
                Expr::Binary(Box::new(l2), t.clone(), Box::new(r2))
            },
            Expr::Call(c, args) => {
                proof {
                    lemma_call_view(*c, *args);
                }
                let c2 = Box::new(self.resolve_exp(c));
                let a2 = self.resolve_args(args);
                proof {
                    lemma_call_view(c2, a2);
                }
                Expr::Call(c2, a2)
            },
            Expr::Grouping(x) => Expr::Grouping(Box::new(self.resolve_exp(x))),
            Expr::Literal(o) => Expr::Literal(o.clone()),
            Expr::Logical(l, t, rt) => {
                let l2 = self.resolve_exp(l);
                let r2 = self.resolve_exp(rt);
                Expr::Logical(Box::new(l2), t.clone(), Box::new(r2))
            },
            Expr::Unary(t, x) => Expr::Unary(t.clone(), Box::new(self.resolve_exp(x))),
            Expr::Assignment(v, x) => {
                let x2 = self.resolve_exp(x);
                Expr::Assignment(self.resolve_var(v), Box::new(x2))
            },
            Expr::Variable(v) => Expr::Variable(self.resolve_var(v)),
            Expr::Get(x, n) => Expr::Get(Box::new(self.resolve_exp(x)), n.clone()),
            Expr::SetField(a, n, b) => {
                let a2 = self.resolve_exp(a);
                let b2 = self.resolve_exp(b);
                Expr::SetField(Box::new(a2), n.clone(), Box::new(b2))
            },
            Expr::This(v) => Expr::This(self.resolve_var(v)),
            Expr::Super(v, n) => Expr::Super(self.resolve_var(v), n.clone()),
        }
    }

    /// The arguments `args`, which resolve, each resolved.
    fn resolve_args(&self, args: &Vec<Expr>) -> (r: Vec<Expr>)
        requires
            resolved_args(self@, exprs_view(args@)) is Ok,
        ensures
            exprs_view(r@) == resolved_args(self@, exprs_view(args@))->Ok_0,
        decreases args,
    {
        let ghost all = exprs_view(args@);
        let mut out: Vec<Expr> = Vec::new();
        let mut i: usize = 0;
        assert(all.subrange(0, all.len() as int) =~= all);
        assert(exprs_view(out@) =~= Seq::<SpecExpr>::empty());
        assert(exprs_view(out@) + resolved_args(self@, all)->Ok_0 =~= resolved_args(
            self@,
            all,
        )->Ok_0);
        while i < args.len()
            invariant
                i <= args@.len(),
                all == exprs_view(args@),
                resolved_args(self@, all.subrange(i as int, all.len() as int)) is Ok,
                resolved_args(self@, all)->Ok_0 == exprs_view(out@) + resolved_args(
                    self@,
                    all.subrange(i as int, all.len() as int),
                )->Ok_0,
            decreases args@.len() - i,
        {
            let ghost sub = all.subrange(i as int, all.len() as int);
            assert(sub.subrange(1, sub.len() as int) =~= all.subrange(i + 1, all.len() as int));
            let a = self.resolve_exp(&args[i]);
            let ghost before = exprs_view(out@);
            out.push(a);
            assert(exprs_view(out@) =~= before.push(a@));
            assert(before + resolved_args(self@, sub)->Ok_0 =~= exprs_view(out@) + resolved_args(
                self@,
                all.subrange(i + 1, all.len() as int),
            )->Ok_0);
            i = i + 1;
        }
        assert(all.subrange(i as int, all.len() as int) =~= Seq::<SpecExpr>::empty());
        assert(exprs_view(out@) + Seq::<SpecExpr>::empty() =~= exprs_view(out@));
        out
    }

    /// The expression `e` with each use of a variable resolved, when it
    /// resolves; else the message of the rule that it breaks.
    fn resolve_checked(&self, e: &Expr) -> (r: Result<Expr, String>)
        ensures
            match resolved_expr(self@, e@) {
                Ok(x) => r matches Ok(y) && y@ == x,
                Err(m) => r matches Err(y) && y@ == m,
            },
    {
        match self.check_exp(e) {
            Ok(()) => Ok(self.resolve_exp(e)),
            Err(m) => Err(m),
        }
    }

    /// The open scopes, after `end_scope` when there is a scope to close;
    /// without one, the message of the missing scope.
    fn close_scope(&mut self) -> (r: Result<(), String>)
        ensures
            match end(old(self)@) {
                Some(m) => r is Ok && final(self)@ == m,
                None => r matches Err(x) && x@ == unwrap_message(),
            },
    {
        if self.scopes.len() == 0 {
            return Err(String::from_str("called `Option::unwrap()` on a `None` value"));
        }
        self.end_scope();
        Ok(())
    }

    /// The statement `s` resolved; or, where it breaks a rule of the
    /// language, the message of that rule.
    fn try_resolve_stmt(&mut self, s: &Statement) -> (r: Result<Statement, String>)
        ensures
            match resolved_stmt(old(self)@, s@) {
                Ok((m, x)) => r matches Ok(y) && y@ == x && final(self)@ == m,
                Err(m) => r matches Err(y) && y@ == m,
            },
        decreases s, 1nat,
    {
        match s {
            Statement::Block(stms) => {
                proof {
                    lemma_block_view(*stms);
                }
                self.begin_scope();
                let ss2 = match self.try_resolve_block(stms) {
                    Ok(x) => x,
                    Err(m) => {
                        return Err(m);
                    },
                };
                if let Err(m) = self.close_scope() {
                    return Err(m);
                }
                proof {
                    lemma_block_view(ss2);
                }
                Ok(Statement::Block(ss2))
            },
            Statement::VarDecl(t, e) => {
                self.declare(t);
                let e2 = match self.resolve_checked(e) {
                    Ok(x) => x,
                    Err(m) => {
                        return Err(m);
                    },
                };
                self.define(t);
                Ok(Statement::VarDecl(t.clone(), e2))
            },
            Statement::FuncDecl(name, params, body) => {
                self.declare(name);
                self.define(name);
                let b2 = match self.try_resolve_function(params, body) {
                    Ok(x) => x,
                    Err(m) => {
                        return Err(m);
                    },
                };
                Ok(Statement::FuncDecl(name.clone(), clone_tokens(params), Box::new(b2)))
            },
            Statement::Expr(e) => {
                let e2 = match self.resolve_checked(e) {
                    Ok(x) => x,
                    Err(m) => {
                        return Err(m);
                    },
                };
                Ok(Statement::Expr(e2))
            },
            Statement::Print(e) => {
                let e2 = match self.resolve_checked(e) {
                    Ok(x) => x,
                    Err(m) => {
                        return Err(m);
                    },
                };
                Ok(Statement::Print(e2))
            },
            Statement::If(c, t, el) => {
                let c2 = match self.resolve_checked(c) {
                    Ok(x) => x,
                    Err(m) => {
                        return Err(m);
                    },
                };
                let t2 = match self.try_resolve_stmt(t) {
                    Ok(x) => x,
                    Err(m) => {
                        return Err(m);
                    },
                };
                match el {
                    Some(eb) => {
                        let e2 = match self.try_resolve_stmt(eb) {
                            Ok(x) => x,
                            Err(m) => {
                                return Err(m);
                            },
                        };
                        Ok(Statement::If(c2, Box::new(t2), Some(Box::new(e2))))
                    },
                    None => Ok(Statement::If(c2, Box::new(t2), None)),
                }
            },
            Statement::Return(e) => {
                if self.current_function == FunctionType::Initializer {
                    return Err(String::from_str("Cant't return a value from an initializer."));
                }
                let e2 = match self.resolve_checked(e) {
                    Ok(x) => x,
                    Err(m) => {
                        return Err(m);
                    },
                };
                Ok(Statement::Return(e2))
            },
            Statement::While(c, b) => {
                let c2 = match self.resolve_checked(c) {
                    Ok(x) => x,
                    Err(m) => {
                        return Err(m);
                    },
                };
                let b2 = match self.try_resolve_stmt(b) {
                    Ok(x) => x,
                    Err(m) => {
                        return Err(m);
                    },
                };
                Ok(Statement::While(c2, Box::new(b2)))
            },
            Statement::ClassDecl(name, sup, methods) => {
                proof {
                    lemma_class_view(*name, *sup, *methods);
                }
                let enclosing_class = self.current_class;
                self.current_class = ClassType::Class;
                self.declare(name);
                self.define(name);
                self.begin_scope();
                self.mark(&String::from_str("this"), true);
                let ms2 = match self.try_resolve_methods(methods) {
                    Ok(x) => x,
                    Err(m) => {
                        return Err(m);
                    },
                };
                if let Err(m) = self.close_scope() {
                    return Err(m);
                }
                self.current_class = enclosing_class;
                let sup2 = match sup {
                    Some(v) => Some(v.clone()),
                    None => None,
                };
                proof {
                    lemma_class_view(*name, sup2, ms2);
                }
                Ok(Statement::ClassDecl(name.clone(), sup2, ms2))
            },
        }
    }

    /// The statements `stms` resolved in order; or the message of the rule
    /// that the first one that does not resolve breaks.
    fn try_resolve_stmts(&mut self, stms: &Vec<Statement>) -> (r: Result<Vec<Statement>, String>)
        ensures
            match resolved_stmts(old(self)@, stmts_view(stms@)) {
                Ok((m, x)) => r matches Ok(y) && stmts_view(y@) == x && final(self)@ == m,
                Err(m) => r matches Err(y) && y@ == m,
            },
        decreases stms, 0nat,
    {
        let ghost all = stmts_view(stms@);
        let mut out: Vec<Statement> = Vec::new();
        let mut i: usize = 0;
        assert(all.subrange(0, all.len() as int) =~= all);
        assert(stmts_view(out@) =~= Seq::<SpecStmt>::empty());
        proof {
            match resolved_stmts(self@, all) {
                Ok((m, rest)) => {
                    assert(stmts_view(out@) + rest =~= rest);
                },
                Err(_) => {},
            }
        }
        while i < stms.len()
            invariant
                i <= stms@.len(),
                all == stmts_view(stms@),
                resolved_stmts(old(self)@, all) == match resolved_stmts(
                    self@,
                    all.subrange(i as int, all.len() as int),
                ) {
                    Ok((m, rest)) => Ok((m, stmts_view(out@) + rest)),
                    Err(m) => Err(m),
                },
            decreases stms@.len() - i,
        {
            let ghost sub = all.subrange(i as int, all.len() as int);
            let ghost m0 = self@;
            assert(sub.subrange(1, sub.len() as int) =~= all.subrange(i + 1, all.len() as int));
            let s2 = match self.try_resolve_stmt(&stms[i]) {
                Ok(x) => x,
                Err(m) => {
                    return Err(m);
                },
            };
            let ghost before = stmts_view(out@);
            out.push(s2);
            assert(stmts_view(out@) =~= before.push(s2@));
            proof {
                match resolved_stmts(self@, all.subrange(i + 1, all.len() as int)) {
                    Ok((m, rest)) => {
                        assert(before + (seq![s2@] + rest) =~= stmts_view(out@) + rest);
                    },
                    Err(_) => {},
                }
            }
            i = i + 1;
        }
        assert(all.subrange(i as int, all.len() as int) =~= Seq::<SpecStmt>::empty());
        assert(stmts_view(out@) + Seq::<SpecStmt>::empty() =~= stmts_view(out@));
        Ok(out)
    }

    /// The statements of the block `stms` resolved in order; or the message
    /// of the rule that the first one that does not resolve breaks.
    fn try_resolve_block(&mut self, stms: &VecDeque<Statement>) -> (r: Result<
        VecDeque<Statement>,
        String,
    >)
        ensures
            match resolved_stmts(old(self)@, stmts_view(stms@)) {
                Ok((m, x)) => r matches Ok(y) && stmts_view(y@) == x && final(self)@ == m,
                Err(m) => r matches Err(y) && y@ == m,
            },
        decreases stms, 0nat,
    {
        let ghost all = stmts_view(stms@);
        let mut out: VecDeque<Statement> = VecDeque::new();
        let mut i: usize = 0;
        assert(all.subrange(0, all.len() as int) =~= all);
        assert(stmts_view(out@) =~= Seq::<SpecStmt>::empty());
        proof {
            match resolved_stmts(self@, all) {
                Ok((m, rest)) => {
                    assert(stmts_view(out@) + rest =~= rest);
                },
                Err(_) => {},
            }
        }
        while i < stms.len()
            invariant
                i <= stms@.len(),
                all == stmts_view(stms@),
                resolved_stmts(old(self)@, all) == match resolved_stmts(
                    self@,
                    all.subrange(i as int, all.len() as int),
                ) {
                    Ok((m, rest)) => Ok((m, stmts_view(out@) + rest)),
                    Err(m) => Err(m),
                },
            decreases stms@.len() - i,
        {
            let ghost sub = all.subrange(i as int, all.len() as int);
            let ghost m0 = self@;
            assert(sub.subrange(1, sub.len() as int) =~= all.subrange(i + 1, all.len() as int));
            proof {
                assert(decreases_to!(stms => stms[i as int]));
            }
            let s2 = match self.try_resolve_stmt(&stms[i]) {
                Ok(x) => x,
                Err(m) => {
                    return Err(m);
                },
            };
            let ghost before = stmts_view(out@);
            out.push_back(s2);
            assert(stmts_view(out@) =~= before.push(s2@));
            proof {
                match resolved_stmts(self@, all.subrange(i + 1, all.len() as int)) {
                    Ok((m, rest)) => {
                        assert(before + (seq![s2@] + rest) =~= stmts_view(out@) + rest);
                    },
                    Err(_) => {},
                }
            }
            i = i + 1;
        }
        assert(all.subrange(i as int, all.len() as int) =~= Seq::<SpecStmt>::empty());
        assert(stmts_view(out@) + Seq::<SpecStmt>::empty() =~= stmts_view(out@));
        Ok(out)
    }

    /// A function body resolved in a new scope that holds its parameters; or
    /// the message of the rule that it breaks.
    fn try_resolve_function(&mut self, params: &Vec<Token>, body: &Statement) -> (r: Result<
        Statement,
        String,
    >)
        ensures
            match resolved_function(old(self)@, params@, body@) {
                Ok((m, x)) => r matches Ok(y) && y@ == x && final(self)@ == m,
                Err(m) => r matches Err(y) && y@ == m,
            },
        decreases body, 2nat,
    {
        self.begin_scope();
        let ghost total = declare_params(self@, params@);
        let mut i: usize = 0;
        assert(params@.subrange(0, params@.len() as int) =~= params@);
        while i < params.len()
            invariant
                i <= params@.len(),
                declare_params(self@, params@.subrange(i as int, params@.len() as int)) == total,
            decreases params@.len() - i,
        {
            let ghost sub = params@.subrange(i as int, params@.len() as int);
            assert(sub.subrange(1, sub.len() as int) =~= params@.subrange(
                i + 1,
                params@.len() as int,
            ));
            self.declare(&params[i]);
            self.define(&params[i]);
            i = i + 1;
        }
        assert(params@.subrange(i as int, params@.len() as int) =~= Seq::<Token>::empty());
        let b2 = match self.try_resolve_stmt(body) {
            Ok(x) => x,
            Err(m) => {
                return Err(m);
            },
        };
        if let Err(m) = self.close_scope() {
            return Err(m);
        }
        Ok(b2)
    }

    /// The methods of a class resolved in order; or the message of the rule
    /// that the first one that does not resolve breaks.
    fn try_resolve_methods(&mut self, methods: &Vec<Statement>) -> (r: Result<Vec<Statement>, String>)
        ensures
            match resolved_methods(old(self)@, stmts_view(methods@)) {
                Ok((m, x)) => r matches Ok(y) && stmts_view(y@) == x && final(self)@ == m,
                Err(m) => r matches Err(y) && y@ == m,
            },
        decreases methods, 0nat,
    {
        let ghost all = stmts_view(methods@);
        let mut out: Vec<Statement> = Vec::new();
        let mut i: usize = 0;
        assert(all.subrange(0, all.len() as int) =~= all);
        assert(stmts_view(out@) =~= Seq::<SpecStmt>::empty());
        proof {
            match resolved_methods(self@, all) {
                Ok((m, rest)) => {
                    assert(stmts_view(out@) + rest =~= rest);
                },
                Err(_) => {},
            }
        }
        while i < methods.len()
            invariant
                i <= methods@.len(),
                all == stmts_view(methods@),
                resolved_methods(old(self)@, all) == match resolved_methods(
                    self@,
                    all.subrange(i as int, all.len() as int),
                ) {
                    Ok((m, rest)) => Ok((m, stmts_view(out@) + rest)),
                    Err(m) => Err(m),
                },
            decreases methods@.len() - i,
        {
            let ghost sub = all.subrange(i as int, all.len() as int);
            assert(sub.subrange(1, sub.len() as int) =~= all.subrange(i + 1, all.len() as int));
            let declaration = self.current_function;
            let method = &methods[i];
            let m2 = match method {
                Statement::FuncDecl(name, params, body) => {
                    if name.lexeme == String::from_str("init") {
                        self.current_function = FunctionType::Initializer;
                    } else {
                        self.current_function = FunctionType::Method;
                    }
                    let b2 = match self.try_resolve_function(params, body) {
                        Ok(x) => x,
                        Err(m) => {
                            return Err(m);
                        },
                    };
                    self.current_function = declaration;
                    Statement::FuncDecl(name.clone(), clone_tokens(params), Box::new(b2))
                },
                _ => {
                    return Err(String::from_str("Resolver error ClassDecl"));
                },
            };
            let ghost before = stmts_view(out@);
            out.push(m2);
            assert(stmts_view(out@) =~= before.push(m2@));
            proof {
                match resolved_methods(self@, all.subrange(i + 1, all.len() as int)) {
                    Ok((m, rest)) => {
                        assert(before + (seq![m2@] + rest) =~= stmts_view(out@) + rest);
                    },
                    Err(_) => {},
                }
            }
            i = i + 1;
        }
        assert(all.subrange(i as int, all.len() as int) =~= Seq::<SpecStmt>::empty());
        assert(stmts_view(out@) + Seq::<SpecStmt>::empty() =~= stmts_view(out@));
        Ok(out)
    }

    /// The statement `s`, which resolves, with each use of a variable
    /// resolved.
    fn resolve_stmt(&mut self, s: &Statement) -> (r: Statement)
        requires
            resolved_stmt(old(self)@, s@) is Ok,
        ensures
            resolved_stmt(old(self)@, s@) == Ok::<(ResolverModel, SpecStmt), Seq<char>>(
                (final(self)@, r@),
            ),
    {
        match self.try_resolve_stmt(s) {
            Ok(x) => x,
            // Not reached: the precondition rules out an error.
            Err(_) => copy_stmt(s),
        }
    }

    /// Resolves each use of a variable in the program `stms`, statement by
    /// statement.  The programs on which resolving stops (a rule of the
    /// language is broken) are left out; `run_checked` takes them too.
    pub fn run(stms: &mut Vec<Statement>)
        requires
            resolved_program(stmts_view(old(stms)@)) is Ok,
        ensures
            resolved_program(stmts_view(old(stms)@)) == Ok::<Seq<SpecStmt>, Seq<char>>(
                stmts_view(final(stms)@),
            ),
    {
        let mut resolver = Resolver::new();
        let ghost all = stmts_view(stms@);
        let mut out: Vec<Statement> = Vec::new();
        let mut i: usize = 0;
        assert(all.subrange(0, all.len() as int) =~= all);
        assert(stmts_view(out@) =~= Seq::<SpecStmt>::empty());
        assert(stmts_view(out@) + resolved_stmts(resolver@, all)->Ok_0.1 =~= resolved_stmts(
            resolver@,
            all,
        )->Ok_0.1);
        while i < stms.len()
            invariant
                i <= stms@.len(),
                all == stmts_view(stms@),
                resolved_program(all) is Ok,
                resolved_stmts(resolver@, all.subrange(i as int, all.len() as int)) is Ok,
                resolved_program(all)->Ok_0 == stmts_view(out@) + resolved_stmts(
                    resolver@,
                    all.subrange(i as int, all.len() as int),
                )->Ok_0.1,
            decreases stms@.len() - i,
        {
            let ghost sub = all.subrange(i as int, all.len() as int);
            let ghost m0 = resolver@;
            assert(sub.subrange(1, sub.len() as int) =~= all.subrange(i + 1, all.len() as int));
            let s2 = resolver.resolve_stmt(&stms[i]);
            let ghost before = stmts_view(out@);
            out.push(s2);
            assert(stmts_view(out@) =~= before.push(s2@));
            assert(before + resolved_stmts(m0, sub)->Ok_0.1 =~= stmts_view(out@) + resolved_stmts(
                resolver@,
                all.subrange(i + 1, all.len() as int),
            )->Ok_0.1);
            i = i + 1;
        }
        assert(all.subrange(i as int, all.len() as int) =~= Seq::<SpecStmt>::empty());
        assert(stmts_view(out@) + Seq::<SpecStmt>::empty() =~= stmts_view(out@));
        *stms = out;
    }

    /// The program `stms` with each use of a variable resolved; or, where a
    /// rule of the language is broken, `Halt::Panic` with the message that
    /// says which.
    pub fn run_checked(stms: &Vec<Statement>) -> (r: Result<Vec<Statement>, Halt>)
        ensures
            match resolved_program(stmts_view(stms@)) {
                Ok(x) => r matches Ok(y) && stmts_view(y@) == x,
                Err(m) => r matches Err(Halt::Panic(y)) && y@ == m,
            },
    {
        let mut resolver = Resolver::new();
        match resolver.try_resolve_stmts(stms) {
            Ok(v) => Ok(v),
            Err(m) => Err(Halt::Panic(m)),
        }
    }

}

} // verus!
