use vstd::prelude::*;

use crate::expressions::{Expr, SpecExpr, Var};
use crate::tokens::Token;
use std::collections::VecDeque;
use vstd::std_specs::vecdeque::VecDequeAdditionalSpecFns;


verus! {

/// The statements of Lox.
#[derive(Debug, PartialEq)]
pub enum Statement {
    VarDecl(Token, Expr),
    ClassDecl(Token, Option<Var>, Vec<Statement>),
    Expr(Expr),
    Print(Expr),
    Block(VecDeque<Statement>),
    If(Expr, Box<Statement>, Option<Box<Statement>>),
    While(Expr, Box<Statement>),
    FuncDecl(Token, Vec<Token>, Box<Statement>),
    Return(Expr),
}

/// The model of a statement: the same tree, with sequences for lists.
pub enum SpecStmt {
    VarDecl(Token, SpecExpr),
    ClassDecl(Token, Option<Var>, Seq<SpecStmt>),
    Expr(SpecExpr),
    Print(SpecExpr),
    Block(Seq<SpecStmt>),
    If(SpecExpr, Box<SpecStmt>, Option<Box<SpecStmt>>),
    While(SpecExpr, Box<SpecStmt>),
    FuncDecl(Token, Seq<Token>, Box<SpecStmt>),
    Return(SpecExpr),
}

impl Statement {
    pub open spec fn spec_view(self) -> SpecStmt
        decreases self,
    {
        match self {
            Statement::VarDecl(t, e) => SpecStmt::VarDecl(t, e@),
            Statement::ClassDecl(t, sup, methods) => SpecStmt::ClassDecl(
                t,
                sup,
                Seq::new(
                    methods@.len(),
                    |i: int|
                        if 0 <= i < methods@.len() {
                            methods@[i].spec_view()
                        } else {
                            SpecStmt::Block(Seq::empty())
                        },
                ),
            ),
            Statement::Expr(e) => SpecStmt::Expr(e@),
            Statement::Print(e) => SpecStmt::Print(e@),
            Statement::Block(stms) => SpecStmt::Block(
                Seq::new(
                    stms@.len(),
                    |i: int|
                        if 0 <= i < stms@.len() {
                            stms[i].spec_view()
                        } else {
                            SpecStmt::Block(Seq::empty())
                        },
                ),
            ),
            Statement::If(c, t, e) => SpecStmt::If(
                c@,
                Box::new(t.spec_view()),
                match e {
                    Some(e) => Some(Box::new(e.spec_view())),
                    None => None,
                },
            ),
            Statement::While(c, b) => SpecStmt::While(c@, Box::new(b.spec_view())),
            Statement::FuncDecl(t, params, body) => SpecStmt::FuncDecl(
                t,
                params@,
                Box::new(body.spec_view()),
            ),
            Statement::Return(e) => SpecStmt::Return(e@),
        }
    }
}

impl View for Statement {
    type V = SpecStmt;

    open spec fn view(&self) -> SpecStmt {
        self.spec_view()
    }
}

/// The models of a sequence of statements.
pub open spec fn stmts_view(s: Seq<Statement>) -> Seq<SpecStmt> {
    s.map_values(|st: Statement| st@)
}

/// The models of a sequence of expressions.
pub open spec fn exprs_view(s: Seq<Expr>) -> Seq<SpecExpr> {
    s.map_values(|e: Expr| e@)
}

/// The model of a block is the block of the models of its statements.
pub proof fn lemma_block_view(v: VecDeque<Statement>)
    ensures
        Statement::Block(v)@ == SpecStmt::Block(stmts_view(v@)),
{
    let a = Statement::Block(v)@;
    if let SpecStmt::Block(s) = a {
        assert(s =~= stmts_view(v@));
    }
}

/// The model of a class declaration holds the models of its methods.
pub proof fn lemma_class_view(name: Token, sup: Option<Var>, v: Vec<Statement>)
    ensures
        Statement::ClassDecl(name, sup, v)@ == SpecStmt::ClassDecl(name, sup, stmts_view(v@)),
{
    let a = Statement::ClassDecl(name, sup, v)@;
    if let SpecStmt::ClassDecl(_, _, s) = a {
        assert(s =~= stmts_view(v@));
    }
}

/// The model of a call holds the models of its arguments.
pub proof fn lemma_call_view(callee: Box<Expr>, v: Vec<Expr>)
    ensures
        Expr::Call(callee, v)@ == SpecExpr::Call(Box::new((*callee)@), exprs_view(v@)),
{
    reveal(Expr::spec_view);
    let a = Expr::Call(callee, v)@;
    if let SpecExpr::Call(_, s) = a {
        assert(s =~= exprs_view(v@));
    }
}

broadcast use {crate::expressions::group_expr_view, vstd::std_specs::vecdeque::group_vec_dequeue_axioms};

/// A copy of the expression `e`.
pub fn copy_expr(e: &Expr) -> (r: Expr)
    ensures
        r@ == e@,
    decreases e,
{
    match e {
        Expr::Binary(l, t, rt) => Expr::Binary(
            Box::new(copy_expr(l)),
            t.clone(),
            Box::new(copy_expr(rt)),
        ),
        Expr::Grouping(x) => Expr::Grouping(Box::new(copy_expr(x))),
        Expr::Literal(o) => Expr::Literal(o.clone()),
        Expr::Unary(t, x) => Expr::Unary(t.clone(), Box::new(copy_expr(x))),
        Expr::Variable(v) => Expr::Variable(v.clone()),
        Expr::Assignment(v, x) => Expr::Assignment(v.clone(), Box::new(copy_expr(x))),
        Expr::Logical(l, t, rt) => Expr::Logical(
            Box::new(copy_expr(l)),
            t.clone(),
            Box::new(copy_expr(rt)),
        ),
        Expr::Call(c, args) => {
            proof {
                lemma_call_view(*c, *args);
            }
            let c2 = Box::new(copy_expr(c));
            let a2 = copy_exprs(args);
            proof {
                lemma_call_view(c2, a2);
            }
            Expr::Call(c2, a2)
        },
        Expr::Get(x, n) => Expr::Get(Box::new(copy_expr(x)), n.clone()),
        Expr::SetField(a, n, b) => Expr::SetField(
            Box::new(copy_expr(a)),
            n.clone(),
            Box::new(copy_expr(b)),
        ),
        Expr::This(v) => Expr::This(v.clone()),
        Expr::Super(v, n) => Expr::Super(v.clone(), n.clone()),
    }
}

/// A copy of the expressions `es`.
pub fn copy_exprs(es: &Vec<Expr>) -> (r: Vec<Expr>)
    ensures
        exprs_view(r@) == exprs_view(es@),
    decreases es,
{
    let mut out: Vec<Expr> = Vec::new();
    let mut i: usize = 0;
    while i < es.len()
        invariant
            i <= es@.len(),
            exprs_view(out@) == exprs_view(es@).subrange(0, i as int),
        decreases es@.len() - i,
    {
        let x = copy_expr(&es[i]);
        let ghost before = exprs_view(out@);
        out.push(x);
        assert(exprs_view(out@) =~= before.push(x@));
        assert(exprs_view(es@).subrange(0, i + 1) =~= exprs_view(es@).subrange(0, i as int).push(
            es@[i as int]@,
        ));
        i = i + 1;
    }
    assert(exprs_view(out@) =~= exprs_view(es@));
    out
}

impl Clone for Expr {
    fn clone(&self) -> (r: Self)
        ensures
            r@ == self@,
    {
        copy_expr(self)
    }
}

/// A copy of the statement `s`.
pub fn copy_stmt(s: &Statement) -> (r: Statement)
    ensures
        r@ == s@,
    decreases s,
{
    match s {
        Statement::VarDecl(t, e) => Statement::VarDecl(t.clone(), copy_expr(e)),
        Statement::ClassDecl(n, sup, ms) => {
            proof {
                lemma_class_view(*n, *sup, *ms);
            }
            let sup2 = match sup {
                Some(v) => Some(v.clone()),
                None => None,
            };
            let ms2 = copy_stmts(ms);
            proof {
                lemma_class_view(*n, sup2, ms2);
            }
            Statement::ClassDecl(n.clone(), sup2, ms2)
        },
        Statement::Expr(e) => Statement::Expr(copy_expr(e)),
        Statement::Print(e) => Statement::Print(copy_expr(e)),
        Statement::Block(ss) => {
            proof {
                lemma_block_view(*ss);
            }
            let ss2 = copy_block(ss);
            proof {
                lemma_block_view(ss2);
            }
            Statement::Block(ss2)
        },
        Statement::If(c, t, el) => Statement::If(
            copy_expr(c),
            Box::new(copy_stmt(t)),
            match el {
                Some(b) => Some(Box::new(copy_stmt(b))),
                None => None,
            },
        ),
        Statement::While(c, b) => Statement::While(copy_expr(c), Box::new(copy_stmt(b))),
        Statement::FuncDecl(n, ps, b) => {
            let mut ps2: Vec<Token> = Vec::new();
            let mut i: usize = 0;
            while i < ps.len()
                invariant
                    i <= ps@.len(),
                    ps2@ == ps@.subrange(0, i as int),
                decreases ps@.len() - i,
            {
                ps2.push(ps[i].clone());
                assert(ps2@ =~= ps@.subrange(0, i + 1));
                i = i + 1;
            }
            assert(ps2@ =~= ps@);
            Statement::FuncDecl(n.clone(), ps2, Box::new(copy_stmt(b)))
        },
        Statement::Return(e) => Statement::Return(copy_expr(e)),
    }
}

/// A copy of the statements `ss`.
pub fn copy_stmts(ss: &Vec<Statement>) -> (r: Vec<Statement>)
    ensures
        stmts_view(r@) == stmts_view(ss@),
    decreases ss,
{
    let mut out: Vec<Statement> = Vec::new();
    let mut i: usize = 0;
    while i < ss.len()
        invariant
            i <= ss@.len(),
            stmts_view(out@) == stmts_view(ss@).subrange(0, i as int),
        decreases ss@.len() - i,
    {
        let x = copy_stmt(&ss[i]);
        let ghost before = stmts_view(out@);
        out.push(x);
        assert(stmts_view(out@) =~= before.push(x@));
        assert(stmts_view(ss@).subrange(0, i + 1) =~= stmts_view(ss@).subrange(0, i as int).push(
            ss@[i as int]@,
        ));
        i = i + 1;
    }
    assert(stmts_view(out@) =~= stmts_view(ss@));
    out
}

/// A copy of the statements of the block `ss`.
pub fn copy_block(ss: &VecDeque<Statement>) -> (r: VecDeque<Statement>)
    ensures
        stmts_view(r@) == stmts_view(ss@),
    decreases ss,
{
    let mut out: VecDeque<Statement> = VecDeque::new();
    let mut i: usize = 0;
    while i < ss.len()
        invariant
            i <= ss@.len(),
            stmts_view(out@) == stmts_view(ss@).subrange(0, i as int),
        decreases ss@.len() - i,
    {
        proof {
            assert(decreases_to!(ss => ss[i as int]));
        }
        let x = copy_stmt(&ss[i]);
        let ghost before = stmts_view(out@);
        out.push_back(x);
        assert(stmts_view(out@) =~= before.push(x@));
        assert(stmts_view(ss@).subrange(0, i + 1) =~= stmts_view(ss@).subrange(0, i as int).push(
            ss@[i as int]@,
        ));
        i = i + 1;
    }
    assert(stmts_view(out@) =~= stmts_view(ss@));
    out
}

impl Clone for Statement {
    fn clone(&self) -> (r: Self)
        ensures
            r@ == self@,
    {
        copy_stmt(self)
    }
}

} // verus!
