use vstd::prelude::*;

use crate::expressions::{SpecExpr, Var};
use crate::resolver::{
    begin,
    declare,
    declare_params,
    hops_from,
    define,
    resolved_args,
    resolved_expr,
    resolved_function,
    resolved_methods,
    resolved_stmt,
    resolved_stmts,
    ClassType,
    FunctionType,
    ResolverModel,
};
use crate::tokens::Token;
use crate::statements::SpecStmt;
use crate::tokens::Object;

verus! {

/// A use of a variable, with its number of scopes left out.
pub open spec fn erase_var(v: Var) -> Var {
    Var { identifier: v.identifier, hops: 0 }
}

/// The expression `e` with the number of scopes of each use of a variable
/// left out.
pub open spec fn erase_expr(e: SpecExpr) -> SpecExpr
    decreases e,
{
    match e {
        SpecExpr::Binary(l, t, r) => SpecExpr::Binary(
            Box::new(erase_expr(*l)),
            t,
            Box::new(erase_expr(*r)),
        ),
        SpecExpr::Call(c, args) => SpecExpr::Call(
            Box::new(erase_expr(*c)),
            Seq::new(
                args.len(),
                |i: int|
                    if 0 <= i < args.len() {
                        erase_expr(args[i])
                    } else {
                        SpecExpr::Literal(Object::Nil)
                    },
            ),
        ),
        SpecExpr::Grouping(x) => SpecExpr::Grouping(Box::new(erase_expr(*x))),
        SpecExpr::Literal(o) => SpecExpr::Literal(o),
        SpecExpr::Logical(l, t, r) => SpecExpr::Logical(
            Box::new(erase_expr(*l)),
            t,
            Box::new(erase_expr(*r)),
        ),
        SpecExpr::Unary(t, x) => SpecExpr::Unary(t, Box::new(erase_expr(*x))),
        SpecExpr::Assignment(v, x) => SpecExpr::Assignment(erase_var(v), Box::new(erase_expr(*x))),
        SpecExpr::Variable(v) => SpecExpr::Variable(erase_var(v)),
        SpecExpr::Get(x, n) => SpecExpr::Get(Box::new(erase_expr(*x)), n),
        SpecExpr::SetField(a, n, b) => SpecExpr::SetField(
            Box::new(erase_expr(*a)),
            n,
            Box::new(erase_expr(*b)),
        ),
        SpecExpr::This(v) => SpecExpr::This(erase_var(v)),
        SpecExpr::Super(v, n) => SpecExpr::Super(erase_var(v), n),
    }
}

/// The statement `s` with the number of scopes of each use of a variable
/// left out.
pub open spec fn erase_stmt(s: SpecStmt) -> SpecStmt
    decreases s,
{
    match s {
        SpecStmt::VarDecl(t, e) => SpecStmt::VarDecl(t, erase_expr(e)),
        SpecStmt::ClassDecl(n, sup, ms) => SpecStmt::ClassDecl(
            n,
            match sup {
                Some(v) => Some(erase_var(v)),
                None => None,
            },
            Seq::new(
                ms.len(),
                |i: int|
                    if 0 <= i < ms.len() {
                        erase_stmt(ms[i])
                    } else {
                        SpecStmt::Block(Seq::empty())
                    },
            ),
        ),
        SpecStmt::Expr(e) => SpecStmt::Expr(erase_expr(e)),
        SpecStmt::Print(e) => SpecStmt::Print(erase_expr(e)),
        SpecStmt::Block(ss) => SpecStmt::Block(
            Seq::new(
                ss.len(),
                |i: int|
                    if 0 <= i < ss.len() {
                        erase_stmt(ss[i])
                    } else {
                        SpecStmt::Block(Seq::empty())
                    },
            ),
        ),
        SpecStmt::If(c, t, e) => SpecStmt::If(
            erase_expr(c),
            Box::new(erase_stmt(*t)),
            match e {
                Some(b) => Some(Box::new(erase_stmt(*b))),
                None => None,
            },
        ),
        SpecStmt::While(c, b) => SpecStmt::While(erase_expr(c), Box::new(erase_stmt(*b))),
        SpecStmt::FuncDecl(n, ps, b) => SpecStmt::FuncDecl(n, ps, Box::new(erase_stmt(*b))),
        SpecStmt::Return(e) => SpecStmt::Return(erase_expr(e)),
    }
}

/// The two sequences of expressions are alike but for the numbers of scopes.
pub open spec fn exprs_alike(a: Seq<SpecExpr>, b: Seq<SpecExpr>) -> bool {
    &&& a.len() == b.len()
    &&& forall|i: int| 0 <= i < a.len() ==> #[trigger] erase_expr(a[i]) == erase_expr(b[i])
}

/// The two sequences of statements are alike but for the numbers of scopes.
pub open spec fn stmts_alike(a: Seq<SpecStmt>, b: Seq<SpecStmt>) -> bool {
    &&& a.len() == b.len()
    &&& forall|i: int| 0 <= i < a.len() ==> #[trigger] erase_stmt(a[i]) == erase_stmt(b[i])
}

/// Resolving an expression changes nothing in it but the numbers of scopes
/// of the uses of variables.
pub proof fn law_expr_shape(m: ResolverModel, e: SpecExpr)
    ensures
        resolved_expr(m, e) matches Ok(x) ==> erase_expr(x) == erase_expr(e),
    decreases e,
{
    match e {
        SpecExpr::Binary(l, t, r) => {
            law_expr_shape(m, *l);
            law_expr_shape(m, *r);
            if let Ok(x) = resolved_expr(m, e) {
                let l2 = resolved_expr(m, *l)->Ok_0;
                let r2 = resolved_expr(m, *r)->Ok_0;
                assert(x == SpecExpr::Binary(Box::new(l2), t, Box::new(r2)));
                assert(erase_expr(x) == SpecExpr::Binary(
                    Box::new(erase_expr(l2)),
                    t,
                    Box::new(erase_expr(r2)),
                ));
                assert(erase_expr(l2) == erase_expr(*l));
                assert(erase_expr(r2) == erase_expr(*r));
                assert(erase_expr(e) == SpecExpr::Binary(
                    Box::new(erase_expr(*l)),
                    t,
                    Box::new(erase_expr(*r)),
                ));
            }
        },
        SpecExpr::Call(c, args) => {
            law_expr_shape(m, *c);
            lemma_args_shape(m, args);
            if let Ok(x) = resolved_expr(m, e) {
                let a2 = resolved_args(m, args)->Ok_0;
                assert(x == SpecExpr::Call(Box::new(resolved_expr(m, *c)->Ok_0), a2));
                let ex = erase_expr(x)->Call_1;
                let ee = erase_expr(e)->Call_1;
                assert(exprs_alike(a2, args));
                assert(ex.len() == ee.len());
                assert forall|i: int| 0 <= i < ex.len() implies ex[i] == ee[i] by {
                    assert(ex[i] == erase_expr(a2[i]));
                    assert(ee[i] == erase_expr(args[i]));
                }
                assert(ex =~= ee);
            }
        },
        SpecExpr::Grouping(x) => {
            law_expr_shape(m, *x);
        },
        SpecExpr::Logical(l, t, r) => {
            law_expr_shape(m, *l);
            law_expr_shape(m, *r);
        },
        SpecExpr::Unary(t, x) => {
            law_expr_shape(m, *x);
        },
        SpecExpr::Assignment(v, x) => {
            law_expr_shape(m, *x);
        },
        SpecExpr::Get(x, n) => {
            law_expr_shape(m, *x);
        },
        SpecExpr::SetField(a, n, b) => {
            law_expr_shape(m, *a);
            law_expr_shape(m, *b);
        },
        _ => {},
    }
}

proof fn lemma_args_shape(m: ResolverModel, args: Seq<SpecExpr>)
    ensures
        resolved_args(m, args) matches Ok(xs) ==> exprs_alike(xs, args),
    decreases args,
{
    if args.len() > 0 {
        law_expr_shape(m, args[0]);
        let rest = args.subrange(1, args.len() as int);
        lemma_args_shape(m, rest);
        if let Ok(xs) = resolved_args(m, args) {
            assert forall|i: int| 0 <= i < xs.len() implies #[trigger] erase_expr(xs[i])
                == erase_expr(args[i]) by {
                if i > 0 {
                    assert(xs[i] == resolved_args(m, rest)->Ok_0[i - 1]);
                    assert(args[i] == rest[i - 1]);
                }
            }
        }
    }
}

/// Resolving a statement changes nothing in it but the numbers of scopes of
/// the uses of variables.
pub proof fn law_stmt_shape(m: ResolverModel, s: SpecStmt)
    ensures
        resolved_stmt(m, s) matches Ok((_, x)) ==> erase_stmt(x) == erase_stmt(s),
    decreases s, 1nat,
{
    match s {
        SpecStmt::Block(ss) => {
            lemma_stmts_shape(begin(m), ss);
            if let Ok((_, x)) = resolved_stmt(m, s) {
                let xs = resolved_stmts(begin(m), ss)->Ok_0.1;
                assert(x == SpecStmt::Block(xs));
                let ex = erase_stmt(x)->Block_0;
                let ee = erase_stmt(s)->Block_0;
                assert(stmts_alike(xs, ss));
                assert forall|i: int| 0 <= i < ex.len() implies ex[i] == ee[i] by {
                    assert(ex[i] == erase_stmt(xs[i]));
                    assert(ee[i] == erase_stmt(ss[i]));
                }
                assert(ex =~= ee);
            }
        },
        SpecStmt::VarDecl(t, e) => {
            law_expr_shape(declare(m, t.lexeme@), e);
        },
        SpecStmt::FuncDecl(n, params, body) => {
            lemma_function_shape(define(declare(m, n.lexeme@), n.lexeme@), params, *body);
        },
        SpecStmt::Expr(e) => {
            law_expr_shape(m, e);
        },
        SpecStmt::Print(e) => {
            law_expr_shape(m, e);
        },
        SpecStmt::If(c, t, el) => {
            law_expr_shape(m, c);
            law_stmt_shape(m, *t);
            if let Ok((m2, _)) = resolved_stmt(m, *t) {
                if let Some(eb) = el {
                    law_stmt_shape(m2, *eb);
                }
            }
        },
        SpecStmt::Return(e) => {
            law_expr_shape(m, e);
        },
        SpecStmt::While(c, b) => {
            law_expr_shape(m, c);
            law_stmt_shape(m, *b);
        },
        SpecStmt::ClassDecl(n, sup, methods) => {
            let m1 = ResolverModel { class: ClassType::Class, ..m };
            let m2 = begin(define(declare(m1, n.lexeme@), n.lexeme@));
            let m3 = define(m2, "this"@);
            lemma_methods_shape(m3, methods);
            if let Ok((_, x)) = resolved_stmt(m, s) {
                let ms2 = resolved_methods(m3, methods)->Ok_0.1;
                assert(x == SpecStmt::ClassDecl(n, sup, ms2));
                let ex = erase_stmt(x)->ClassDecl_2;
                let ee = erase_stmt(s)->ClassDecl_2;
                assert(stmts_alike(ms2, methods));
                assert forall|i: int| 0 <= i < ex.len() implies ex[i] == ee[i] by {
                    assert(ex[i] == erase_stmt(ms2[i]));
                    assert(ee[i] == erase_stmt(methods[i]));
                }
                assert(ex =~= ee);
            }
        },
    }
}

proof fn lemma_stmts_shape(m: ResolverModel, ss: Seq<SpecStmt>)
    ensures
        resolved_stmts(m, ss) matches Ok((_, xs)) ==> stmts_alike(xs, ss),
    decreases ss, 0nat,
{
    if ss.len() > 0 {
        law_stmt_shape(m, ss[0]);
        if let Ok((m2, _)) = resolved_stmt(m, ss[0]) {
            let rest = ss.subrange(1, ss.len() as int);
            lemma_stmts_shape(m2, rest);
            if let Ok((_, xs)) = resolved_stmts(m, ss) {
                assert forall|i: int| 0 <= i < xs.len() implies #[trigger] erase_stmt(xs[i])
                    == erase_stmt(ss[i]) by {
                    if i > 0 {
                        assert(xs[i] == resolved_stmts(m2, rest)->Ok_0.1[i - 1]);
                        assert(ss[i] == rest[i - 1]);
                    }
                }
            }
        }
    }
}

proof fn lemma_function_shape(m: ResolverModel, params: Seq<Token>, body: SpecStmt)
    ensures
        resolved_function(m, params, body) matches Ok((_, b2)) ==> erase_stmt(b2) == erase_stmt(
            body,
        ),
    decreases body, 2nat,
{
    law_stmt_shape(declare_params(begin(m), params), body);
}

proof fn lemma_methods_shape(m: ResolverModel, ms: Seq<SpecStmt>)
    ensures
        resolved_methods(m, ms) matches Ok((_, xs)) ==> stmts_alike(xs, ms),
    decreases ms, 0nat,
{
    if ms.len() > 0 {
        if let SpecStmt::FuncDecl(n, params, body) = ms[0] {
            let kind = if n.lexeme@ == "init"@ {
                FunctionType::Initializer
            } else {
                FunctionType::Method
            };
            let mk = ResolverModel { function: kind, ..m };
            lemma_function_shape(mk, params, *body);
            if let Ok((m2, b2)) = resolved_function(mk, params, *body) {
                let m3 = ResolverModel { function: m.function, ..m2 };
                let rest = ms.subrange(1, ms.len() as int);
                lemma_methods_shape(m3, rest);
                if let Ok((_, xs)) = resolved_methods(m, ms) {
                    assert forall|i: int| 0 <= i < xs.len() implies #[trigger] erase_stmt(xs[i])
                        == erase_stmt(ms[i]) by {
                        if i > 0 {
                            assert(xs[i] == resolved_methods(m3, rest)->Ok_0.1[i - 1]);
                            assert(ms[i] == rest[i - 1]);
                        }
                    }
                }
            }
        }
    }
}

/// Resolving a program changes nothing in it but the numbers of scopes of
/// the uses of variables.
pub proof fn law_program_shape(ss: Seq<SpecStmt>)
    ensures
        crate::resolver::resolved_program(ss) matches Ok(xs) ==> stmts_alike(xs, ss),
{
    lemma_stmts_shape(crate::resolver::initial_model(), ss);
}

/// The use `v` carries the number of scopes between the innermost one and
/// the innermost that has its name (the number of scopes when none has it).
pub open spec fn var_hops_right(scopes: Seq<Seq<(Seq<char>, bool)>>, v: Var) -> bool {
    v.hops == hops_from(scopes, v.identifier.lexeme@, 0) as usize
}

/// Every use of a variable in `e` (read, assignment target, `this`,
/// `super`) carries the number of scopes to its declaration in `scopes`.
pub open spec fn hops_right(scopes: Seq<Seq<(Seq<char>, bool)>>, e: SpecExpr) -> bool
    decreases e, 1nat,
{
    match e {
        SpecExpr::Binary(l, _, r) => hops_right(scopes, *l) && hops_right(scopes, *r),
        SpecExpr::Call(c, args) => hops_right(scopes, *c) && args_hops_right(scopes, args),
        SpecExpr::Grouping(x) => hops_right(scopes, *x),
        SpecExpr::Literal(_) => true,
        SpecExpr::Logical(l, _, r) => hops_right(scopes, *l) && hops_right(scopes, *r),
        SpecExpr::Unary(_, x) => hops_right(scopes, *x),
        SpecExpr::Assignment(v, x) => var_hops_right(scopes, v) && hops_right(scopes, *x),
        SpecExpr::Variable(v) => var_hops_right(scopes, v),
        SpecExpr::Get(x, _) => hops_right(scopes, *x),
        SpecExpr::SetField(a, _, b) => hops_right(scopes, *a) && hops_right(scopes, *b),
        SpecExpr::This(v) => var_hops_right(scopes, v),
        SpecExpr::Super(v, _) => var_hops_right(scopes, v),
    }
}

/// Every use of a variable in the expressions `args` carries the number of
/// scopes to its declaration in `scopes`.
pub open spec fn args_hops_right(scopes: Seq<Seq<(Seq<char>, bool)>>, args: Seq<SpecExpr>) -> bool
    decreases args, 0nat,
{
    if args.len() == 0 {
        true
    } else {
        hops_right(scopes, args[0]) && args_hops_right(scopes, args.subrange(1, args.len() as int))
    }
}

/// In a resolved expression, every use of a variable (read, assignment
/// target, `this`, `super`) carries the number of scopes between the
/// innermost open one and the innermost one that has its name.
pub proof fn law_expr_hops(m: ResolverModel, e: SpecExpr)
    ensures
        resolved_expr(m, e) matches Ok(x) ==> hops_right(m.scopes, x),
    decreases e, 1nat,
{
    match e {
        SpecExpr::Binary(l, t, r) => {
            law_expr_hops(m, *l);
            law_expr_hops(m, *r);
        },
        SpecExpr::Call(c, args) => {
            law_expr_hops(m, *c);
            lemma_args_hops(m, args);
        },
        SpecExpr::Grouping(x) => {
            law_expr_hops(m, *x);
        },
        SpecExpr::Logical(l, t, r) => {
            law_expr_hops(m, *l);
            law_expr_hops(m, *r);
        },
        SpecExpr::Unary(t, x) => {
            law_expr_hops(m, *x);
        },
        SpecExpr::Assignment(v, x) => {
            law_expr_hops(m, *x);
        },
        SpecExpr::Get(x, n) => {
            law_expr_hops(m, *x);
        },
        SpecExpr::SetField(a, n, b) => {
            law_expr_hops(m, *a);
            law_expr_hops(m, *b);
        },
        _ => {},
    }
}

proof fn lemma_args_hops(m: ResolverModel, args: Seq<SpecExpr>)
    ensures
        resolved_args(m, args) matches Ok(xs) ==> args_hops_right(m.scopes, xs),
    decreases args, 0nat,
{
    if args.len() > 0 {
        law_expr_hops(m, args[0]);
        let rest = args.subrange(1, args.len() as int);
        lemma_args_hops(m, rest);
        if let Ok(xs) = resolved_args(m, args) {
            let a = resolved_expr(m, args[0])->Ok_0;
            let r = resolved_args(m, rest)->Ok_0;
            assert(xs == seq![a] + r);
            assert(xs[0] == a);
            assert(xs.subrange(1, xs.len() as int) =~= r);
        }
    }
}

} // verus!
