use vstd::prelude::*;

use crate::tokens::{Object, Token, TokenType};

verus! {

/// The expressions of Lox.
#[derive(Debug, PartialEq)]
pub enum Expr {
    Binary(Box<Expr>, Token, Box<Expr>),
    Grouping(Box<Expr>),
    Literal(Object),
    Unary(Token, Box<Expr>),
    Variable(Var),
    Assignment(Var, Box<Expr>),
    Logical(Box<Expr>, Token, Box<Expr>),
    Call(Box<Expr>, Vec<Expr>),
    Get(Box<Expr>, Token),
    SetField(Box<Expr>, Token, Box<Expr>),
    This(Var),
    Super(Var, Token),
}

/// A use of a variable, with the number of scopes between the use and the
/// declaration (filled in by the resolver).
#[derive(Debug, PartialEq)]
pub struct Var {
    pub identifier: Token,
    pub hops: usize,
}

/// The model of an expression: the same tree, with sequences for argument lists.
pub enum SpecExpr {
    Binary(Box<SpecExpr>, Token, Box<SpecExpr>),
    Grouping(Box<SpecExpr>),
    Literal(Object),
    Unary(Token, Box<SpecExpr>),
    Variable(Var),
    Assignment(Var, Box<SpecExpr>),
    Logical(Box<SpecExpr>, Token, Box<SpecExpr>),
    Call(Box<SpecExpr>, Seq<SpecExpr>),
    Get(Box<SpecExpr>, Token),
    SetField(Box<SpecExpr>, Token, Box<SpecExpr>),
    This(Var),
    Super(Var, Token),
}

impl Expr {
    #[verifier::opaque]
    pub open spec fn spec_view(self) -> SpecExpr
        decreases self,
    {
        match self {
            Expr::Binary(l, t, r) => SpecExpr::Binary(
                Box::new(l.spec_view()),
                t,
                Box::new(r.spec_view()),
            ),
            Expr::Grouping(e) => SpecExpr::Grouping(Box::new(e.spec_view())),
            Expr::Literal(o) => SpecExpr::Literal(o),
            Expr::Unary(t, e) => SpecExpr::Unary(t, Box::new(e.spec_view())),
            Expr::Variable(v) => SpecExpr::Variable(v),
            Expr::Assignment(v, e) => SpecExpr::Assignment(v, Box::new(e.spec_view())),
            Expr::Logical(l, t, r) => SpecExpr::Logical(
                Box::new(l.spec_view()),
                t,
                Box::new(r.spec_view()),
            ),
            Expr::Call(c, args) => SpecExpr::Call(
                Box::new(c.spec_view()),
                Seq::new(
                    args@.len(),
                    |i: int|
                        if 0 <= i < args@.len() {
                            args@[i].spec_view()
                        } else {
                            SpecExpr::Literal(Object::Nil)
                        },
                ),
            ),
            Expr::Get(e, t) => SpecExpr::Get(Box::new(e.spec_view()), t),
            Expr::SetField(a, t, b) => SpecExpr::SetField(Box::new(a.spec_view()), t, Box::new(b.spec_view())),
            Expr::This(v) => SpecExpr::This(v),
            Expr::Super(v, t) => SpecExpr::Super(v, t),
        }
    }
}

// The model of each kind of expression, one kind at a time.
pub broadcast proof fn lemma_view_binary(l: Box<Expr>, t: Token, r: Box<Expr>)
    ensures
        #[trigger] Expr::Binary(l, t, r).spec_view() == SpecExpr::Binary(
            Box::new((*l).spec_view()),
            t,
            Box::new((*r).spec_view()),
        ),
{
    reveal(Expr::spec_view);
}

pub broadcast proof fn lemma_view_grouping(e: Box<Expr>)
    ensures
        #[trigger] Expr::Grouping(e).spec_view() == SpecExpr::Grouping(Box::new((*e).spec_view())),
{
    reveal(Expr::spec_view);
}

pub broadcast proof fn lemma_view_literal(o: Object)
    ensures
        #[trigger] Expr::Literal(o).spec_view() == SpecExpr::Literal(o),
{
    reveal(Expr::spec_view);
}

pub broadcast proof fn lemma_view_unary(t: Token, e: Box<Expr>)
    ensures
        #[trigger] Expr::Unary(t, e).spec_view() == SpecExpr::Unary(t, Box::new((*e).spec_view())),
{
    reveal(Expr::spec_view);
}

pub broadcast proof fn lemma_view_variable(v: Var)
    ensures
        #[trigger] Expr::Variable(v).spec_view() == SpecExpr::Variable(v),
{
    reveal(Expr::spec_view);
}

pub broadcast proof fn lemma_view_assignment(v: Var, e: Box<Expr>)
    ensures
        #[trigger] Expr::Assignment(v, e).spec_view() == SpecExpr::Assignment(
            v,
            Box::new((*e).spec_view()),
        ),
{
    reveal(Expr::spec_view);
}

pub broadcast proof fn lemma_view_logical(l: Box<Expr>, t: Token, r: Box<Expr>)
    ensures
        #[trigger] Expr::Logical(l, t, r).spec_view() == SpecExpr::Logical(
            Box::new((*l).spec_view()),
            t,
            Box::new((*r).spec_view()),
        ),
{
    reveal(Expr::spec_view);
}

pub broadcast proof fn lemma_view_get(e: Box<Expr>, t: Token)
    ensures
        #[trigger] Expr::Get(e, t).spec_view() == SpecExpr::Get(Box::new((*e).spec_view()), t),
{
    reveal(Expr::spec_view);
}

pub broadcast proof fn lemma_view_set_field(a: Box<Expr>, t: Token, b: Box<Expr>)
    ensures
        #[trigger] Expr::SetField(a, t, b).spec_view() == SpecExpr::SetField(
            Box::new((*a).spec_view()),
            t,
            Box::new((*b).spec_view()),
        ),
{
    reveal(Expr::spec_view);
}

pub broadcast proof fn lemma_view_this(v: Var)
    ensures
        #[trigger] Expr::This(v).spec_view() == SpecExpr::This(v),
{
    reveal(Expr::spec_view);
}

pub broadcast proof fn lemma_view_super(v: Var, t: Token)
    ensures
        #[trigger] Expr::Super(v, t).spec_view() == SpecExpr::Super(v, t),
{
    reveal(Expr::spec_view);
}

/// The model of a variable or a property read tells which kind it came from.
pub proof fn lemma_view_kind(e: Expr)
    ensures
        e.spec_view() is Variable <==> e is Variable,
        e.spec_view() is Get <==> e is Get,
        e is Variable ==> e.spec_view() == SpecExpr::Variable(e->Variable_0),
        e is Get ==> e.spec_view() == SpecExpr::Get(
            Box::new((*e->Get_0).spec_view()),
            e->Get_1,
        ),
{
    reveal(Expr::spec_view);
}

pub broadcast group group_expr_view {
    lemma_view_binary,
    lemma_view_grouping,
    lemma_view_literal,
    lemma_view_unary,
    lemma_view_variable,
    lemma_view_assignment,
    lemma_view_logical,
    lemma_view_get,
    lemma_view_set_field,
    lemma_view_this,
    lemma_view_super,
}

impl View for Expr {
    type V = SpecExpr;

    open spec fn view(&self) -> SpecExpr {
        self.spec_view()
    }
}

impl Var {
    /// A use of the variable named by `identifier`, not yet resolved.
    pub fn new(identifier: Token) -> (v: Self)
        ensures
            v.identifier == identifier,
            v.hops == 0,
    {
        Self { identifier, hops: 0 }
    }

    /// The name of the variable.
    pub fn name(&self) -> (n: &str)
        ensures
            n@ == self.identifier.lexeme@,
    {
        self.identifier.lexeme.as_str()
    }

    /// A variable named `name` that is declared `hops` scopes out.
    pub fn new_wo_token(name: &str, hops: usize) -> (v: Self)
        ensures
            v.identifier.token_type == TokenType::IDENTIFIER,
            v.identifier.lexeme@ == name@,
            v.identifier.literal is None,
            v.identifier.line == 0,
            v.hops == hops,
    {
        Self { identifier: Token::new(TokenType::IDENTIFIER, String::from_str(name), None, 0), hops }
    }
}

impl Clone for Var {
    fn clone(&self) -> (res: Self)
        ensures
            res == *self,
    {
        Var { identifier: self.identifier.clone(), hops: self.hops }
    }
}

} // verus!
