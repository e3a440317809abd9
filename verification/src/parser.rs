use vstd::prelude::*;

use crate::expressions::{Expr, SpecExpr, Var};
use crate::grammar::{
    Parsed,
    tok_is,
    tok_in,
    unwrap_message,
    consume_at,
    expression_at,
    assignment_at,
    assign_to,
    or_at,
    or_rest,
    and_at,
    and_rest,
    equality_at,
    equality_rest,
    comparison_at,
    comparison_rest,
    term_at,
    term_rest,
    factor_at,
    factor_rest,
    unary_at,
    equality_ops,
    comparison_ops,
    term_ops,
    factor_ops,
    unary_ops,
    literal_ops,
    call_at,
    call_rest,
    finish_call_at,
    arguments_at,
    primary_at,
    program_at,
    declaration_at,
    synchronize_at,
    synchronize_rest,
    function_at,
    parameters_at,
    var_declaration_at,
    statement_at,
    desugar_for,
    for_statement_at,
    for_clauses_at,
    class_statement_at,
    class_body_at,
    while_statement_at,
    if_statement_at,
    block_at,
    block_rest,
    print_statement_at,
    return_statement_at,
    expression_statement_at,
};
use crate::lox_error::{Halt, LoxError};
use crate::statements::{
    exprs_view,
    lemma_block_view,
    lemma_call_view,
    lemma_class_view,
    stmts_view,
    SpecStmt,
    Statement,
};
use crate::text::push_decimal;
use crate::tokens::{Object, Token, TokenType};
use std::collections::VecDeque;

verus! {

broadcast use crate::expressions::group_expr_view;

/// How a reading ends, against what the grammar says of it: the value read
/// (by its model) and the position after it, the error and the position where
/// reading stopped, or the message of an abort.
pub open spec fn expr_outcome(spec: Parsed<SpecExpr>, r: Result<Expr, Halt>, cur: int) -> bool {
    match spec {
        Parsed::Done { value, next } => r matches Ok(v) && v@ == value && cur == next,
        Parsed::Failed { error, at } => r matches Err(Halt::Error(e)) && e@ == error && cur == at,
        Parsed::Aborted { message } => r matches Err(Halt::Panic(m)) && m@ == message,
    }
}

pub open spec fn token_outcome(spec: Parsed<Token>, r: Result<Token, Halt>, cur: int) -> bool {
    match spec {
        Parsed::Done { value, next } => r matches Ok(v) && v == value && cur == next,
        Parsed::Failed { error, at } => r matches Err(Halt::Error(e)) && e@ == error && cur == at,
        Parsed::Aborted { message } => r matches Err(Halt::Panic(m)) && m@ == message,
    }
}

pub open spec fn stmt_outcome(spec: Parsed<SpecStmt>, r: Result<Statement, Halt>, cur: int) -> bool {
    match spec {
        Parsed::Done { value, next } => r matches Ok(v) && v@ == value && cur == next,
        Parsed::Failed { error, at } => r matches Err(Halt::Error(e)) && e@ == error && cur == at,
        Parsed::Aborted { message } => r matches Err(Halt::Panic(m)) && m@ == message,
    }
}

pub open spec fn stmts_outcome(
    spec: Parsed<Seq<SpecStmt>>,
    r: Result<Vec<Statement>, Halt>,
    cur: int,
) -> bool {
    match spec {
        Parsed::Done { value, next } => r matches Ok(v) && stmts_view(v@) == value && cur == next,
        Parsed::Failed { error, at } => r matches Err(Halt::Error(e)) && e@ == error && cur == at,
        Parsed::Aborted { message } => r matches Err(Halt::Panic(m)) && m@ == message,
    }
}

/// The model of an optional statement.
pub open spec fn opt_stmt_view(o: Option<Statement>) -> Option<SpecStmt> {
    match o {
        Some(s) => Some(s@),
        None => None,
    }
}

/// The model of an optional expression.
pub open spec fn opt_expr_view(o: Option<Expr>) -> Option<SpecExpr> {
    match o {
        Some(e) => Some(e@),
        None => None,
    }
}

/// A block of two statements.
fn pair_block(first: Statement, second: Statement) -> (r: Statement)
    ensures
        r@ == SpecStmt::Block(seq![first@, second@]),
{
    let mut v: VecDeque<Statement> = VecDeque::with_capacity(2);
    v.push_back(first);
    v.push_back(second);
    proof {
        lemma_block_view(v);
        assert(stmts_view(v@) =~= seq![v@[0]@, v@[1]@]);
    }
    Statement::Block(v)
}

/// The `while` loop that a `for` loop with these clauses and body stands for.
fn desugar(
    initializer: Option<Statement>,
    condition: Option<Expr>,
    increment: Option<Expr>,
    stm: Statement,
) -> (r: Statement)
    ensures
        r@ == desugar_for(
            opt_stmt_view(initializer),
            opt_expr_view(condition),
            opt_expr_view(increment),
            stm@,
        ),
{
    let body = match increment {
        Some(expr) => pair_block(Statement::Expr(expr), stm),
        None => stm,
    };
    let while_stm = match condition {
        Some(cond) => Statement::While(cond, Box::new(body)),
        None => Statement::While(Expr::Literal(Object::True), Box::new(body)),
    };
    match initializer {
        Some(init) => pair_block(init, while_stm),
        None => while_stm,
    }
}

/// Reads a program from its tokens.
pub struct Parser {
    tokens: Vec<Token>,
    current: usize,
}

impl Parser {
    /// The position stays within the tokens.
    pub closed spec fn wf(&self) -> bool {
        self.current <= self.tokens.len()
    }

    /// The tokens being read.
    pub closed spec fn spec_tokens(&self) -> Seq<Token> {
        self.tokens@
    }

    /// The position reading goes on from.
    pub closed spec fn position(&self) -> int {
        self.current as int
    }

    /// From `a` to `b` the tokens stay, and the position only moves forward.
    pub closed spec fn moves(a: Parser, b: Parser) -> bool {
        &&& b.wf()
        &&& b.tokens@ == a.tokens@
        &&& a.current <= b.current
    }

    pub fn new(tokens: Vec<Token>) -> (p: Self)
        ensures
            p.wf(),
            p.spec_tokens() == tokens@,
            p.position() == 0,
    {
        Self { tokens, current: 0 }
    }

    /// Reads the program: its declarations, up to the end-of-file token.
    /// A declaration in error ends the reading with the error that error
    /// recovery gives.  The inputs on which reading cannot go on at all (a
    /// token that must be there is missing) are left out; `parse_or_halt`
    /// takes them too.
    pub fn parse(&mut self) -> (r: Result<Vec<Statement>, LoxError>)
        requires
            old(self).wf(),
            !(program_at(old(self).spec_tokens(), old(self).position(), Seq::empty()) is Aborted),
        ensures
            final(self).wf(),
            final(self).spec_tokens() == old(self).spec_tokens(),
            match program_at(old(self).spec_tokens(), old(self).position(), Seq::empty()) {
                Parsed::Done { value, next } => r matches Ok(v) && stmts_view(v@) == value
                    && final(self).position() == next,
                Parsed::Failed { error, at } => r matches Err(e) && e@ == error
                    && final(self).position() == at,
                Parsed::Aborted { .. } => false,
            },
    {
        match self.statements() {
            Ok(v) => Ok(v),
            Err(Halt::Error(e)) => Err(e),
            // Not reached: the precondition rules out an abort.
            Err(Halt::Panic(_)) => Err(LoxError::TokenListEmpty),
        }
    }

    /// Reads the program, as `parse` does; where reading cannot go on at all,
    /// the result is `Halt::Panic` with the message that says why.
    pub fn parse_or_halt(&mut self) -> (r: Result<Vec<Statement>, Halt>)
        requires
            old(self).wf(),
        ensures
            final(self).wf(),
            final(self).spec_tokens() == old(self).spec_tokens(),
            stmts_outcome(
                program_at(old(self).spec_tokens(), old(self).position(), Seq::empty()),
                r,
                final(self).position(),
            ),
    {
        self.statements()
    }

    // ------------------------------ helpers -------------------------------
    fn is_at_end(&self) -> (r: bool)
        ensures
            r == (self.current >= self.tokens.len()),
    {
        self.current >= self.tokens.len()
    }

    /// Reads the next token when it is of kind `token`.
    fn is_match(&mut self, token: TokenType) -> (r: bool)
        requires
            old(self).wf(),
        ensures
            Self::moves(*old(self), *final(self)),
            r == tok_is(old(self).tokens@, old(self).current as int, token),
            final(self).current == old(self).current + if r {
                1int
            } else {
                0int
            },
    {
        if self.current < self.tokens.len() {
            if self.tokens[self.current].token_type == token {
                self.current = self.current + 1;
                return true;
            }
        }
        false
    }

    /// Reads the next token when it is of one of the kinds in `tokens`.
    fn verify(&mut self, tokens: &Vec<TokenType>) -> (r: bool)
        requires
            old(self).wf(),
        ensures
            Self::moves(*old(self), *final(self)),
            r == tok_in(old(self).tokens@, old(self).current as int, tokens@),
            final(self).current == old(self).current + if r {
                1int
            } else {
                0int
            },
    {
        if self.current < self.tokens.len() {
            let t = self.tokens[self.current].token_type;
            let mut i: usize = 0;
            while i < tokens.len()
                invariant
                    i <= tokens.len(),
                    self.current == old(self).current,
                    self.current < self.tokens.len(),
                    self.tokens@ == old(self).tokens@,
                    t == self.tokens@[self.current as int].token_type,
                    forall|k: int| 0 <= k < i ==> tokens@[k] != t,
                decreases tokens.len() - i,
            {
                if tokens[i] == t {
                    self.current = self.current + 1;
                    return true;
                }
                i += 1;
            }
            assert(!tokens@.contains(t));
        }
        false
    }

    /// Whether the next token is of kind `t`; there must be one.
    fn check(&self, t: TokenType) -> (r: Result<bool, Halt>)
        ensures
            match r {
                Ok(b) => self.current < self.tokens.len() && b == (self.tokens@[self.current as int].token_type
                    == t),
                Err(Halt::Panic(m)) => self.current >= self.tokens.len() && m@ == unwrap_message(),
                _ => false,
            },
    {
        if self.current < self.tokens.len() {
            Ok(self.tokens[self.current].token_type == t)
        } else {
            Err(Halt::Panic(String::from_str("called `Option::unwrap()` on a `None` value")))
        }
    }

    /// The token just read.
    fn previous(&self) -> (t: Token)
        requires
            1 <= self.current <= self.tokens.len(),
        ensures
            t == self.tokens@[self.current - 1],
    {
        self.tokens[self.current - 1].clone()
    }

    /// Reads a token of kind `token`; without one, reading stops with `msg`.
    fn consume(&mut self, token: TokenType, msg: &str) -> (r: Result<Token, Halt>)
        requires
            old(self).wf(),
        ensures
            Self::moves(*old(self), *final(self)),
            token_outcome(
                consume_at(old(self).tokens@, old(self).current as int, token, msg@),
                r,
                final(self).current as int,
            ),
    {
        if self.is_match(token) {
            Ok(self.previous())
        } else {
            Err(Halt::Panic(String::from_str(msg)))
        }
    }

    // ---------------------------- expressions -----------------------------
    fn expression(&mut self) -> (r: Result<Expr, Halt>)
        requires
            old(self).wf(),
        ensures
            Self::moves(*old(self), *final(self)),
            expr_outcome(
                expression_at(old(self).tokens@, old(self).current as int),
                r,
                final(self).current as int,
            ),
        decreases old(self).tokens.len() - old(self).current, 200nat,
    {
        self.assignment()
    }

    fn assignment(&mut self) -> (r: Result<Expr, Halt>)
        requires
            old(self).wf(),
        ensures
            Self::moves(*old(self), *final(self)),
            expr_outcome(
                assignment_at(old(self).tokens@, old(self).current as int),
                r,
                final(self).current as int,
            ),
        decreases old(self).tokens.len() - old(self).current, 190nat,
    {
        let ghost toks = self.tokens@;
        let ghost p0 = self.current as int;
        let expr = match self.or() {
            Ok(v) => v,
            Err(h) => {
                return Err(h);
            },
        };
        proof {
            crate::expressions::lemma_view_kind(expr);
        }
        if self.is_match(TokenType::EQUAL) {
            let _equals = self.previous();
            let ghost p1 = self.current as int;
            let r = self.assignment();
            assert(expr_outcome(assign_to(expr@, assignment_at(toks, p1)), r, self.current as int)
                ==> expr_outcome(assignment_at(toks, p0), r, self.current as int));
            let val = match r {
                Ok(v) => v,
                Err(h) => {
                    return Err(h);
                },
            };
            if let Expr::Variable(name) = expr {
                return Ok(Expr::Assignment(name, Box::new(val)));
            } else if let Expr::Get(e, n) = expr {
                return Ok(Expr::SetField(Box::new(val), n, e));
            }
            return Err(
                Halt::Error(LoxError::ParsingError(String::from_str("Invalid assignment target."))),
            );
        }
        Ok(expr)
    }

    fn or(&mut self) -> (r: Result<Expr, Halt>)
        requires
            old(self).wf(),
        ensures
            Self::moves(*old(self), *final(self)),
            expr_outcome(
                or_at(old(self).tokens@, old(self).current as int),
                r,
                final(self).current as int,
            ),
        decreases old(self).tokens.len() - old(self).current, 180nat,
    {
        let ghost toks = self.tokens@;
        let ghost p0 = self.current as int;
        let mut expr = match self.and() {
            Ok(v) => v,
            Err(h) => {
                return Err(h);
            },
        };
        while self.is_match(TokenType::OR)
            invariant
                toks == old(self).tokens@,
                p0 == old(self).current,
                Self::moves(*old(self), *self),
                or_rest(toks, self.current as int, expr@) == or_at(toks, p0),
            decreases toks.len() - self.current,
        {
            let operator = self.previous();
            let right = match self.and() {
                Ok(v) => v,
                Err(h) => {
                    return Err(h);
                },
            };
            expr = Expr::Logical(Box::new(expr), operator, Box::new(right));
        }
        Ok(expr)
    }

    fn and(&mut self) -> (r: Result<Expr, Halt>)
        requires
            old(self).wf(),
        ensures
            Self::moves(*old(self), *final(self)),
            expr_outcome(
                and_at(old(self).tokens@, old(self).current as int),
                r,
                final(self).current as int,
            ),
        decreases old(self).tokens.len() - old(self).current, 170nat,
    {
        let ghost toks = self.tokens@;
        let ghost p0 = self.current as int;
        let mut expr = match self.equality() {
            Ok(v) => v,
            Err(h) => {
                return Err(h);
            },
        };
        while self.is_match(TokenType::AND)
            invariant
                toks == old(self).tokens@,
                p0 == old(self).current,
                Self::moves(*old(self), *self),
                and_rest(toks, self.current as int, expr@) == and_at(toks, p0),
            decreases toks.len() - self.current,
        {
            let operator = self.previous();
            let right = match self.equality() {
                Ok(v) => v,
                Err(h) => {
                    return Err(h);
                },
            };
            expr = Expr::Logical(Box::new(expr), operator, Box::new(right));
        }
        Ok(expr)
    }

    fn equality(&mut self) -> (r: Result<Expr, Halt>)
        requires
            old(self).wf(),
        ensures
            Self::moves(*old(self), *final(self)),
            expr_outcome(
                equality_at(old(self).tokens@, old(self).current as int),
                r,
                final(self).current as int,
            ),
        decreases old(self).tokens.len() - old(self).current, 160nat,
    {
        let ghost toks = self.tokens@;
        let ghost p0 = self.current as int;
        let mut expr = match self.comparison() {
            Ok(v) => v,
            Err(h) => {
                return Err(h);
            },
        };
        let ops = vec![TokenType::BANG_EQUAL, TokenType::EQUAL_EQUAL];
        assert(ops@ =~= equality_ops());
        while self.verify(&ops)
            invariant
                toks == old(self).tokens@,
                p0 == old(self).current,
                Self::moves(*old(self), *self),
                equality_rest(toks, self.current as int, expr@) == equality_at(toks, p0),
                ops@ == equality_ops(),
            decreases toks.len() - self.current,
        {
            let op = self.previous();
            let right = match self.comparison() {
                Ok(v) => v,
                Err(h) => {
                    return Err(h);
                },
            };
            expr = Expr::Binary(Box::new(expr), op, Box::new(right));
        }
        Ok(expr)
    }

    fn comparison(&mut self) -> (r: Result<Expr, Halt>)
        requires
            old(self).wf(),
        ensures
            Self::moves(*old(self), *final(self)),
            expr_outcome(
                comparison_at(old(self).tokens@, old(self).current as int),
                r,
                final(self).current as int,
            ),
        decreases old(self).tokens.len() - old(self).current, 150nat,
    {
        let ghost toks = self.tokens@;
        let ghost p0 = self.current as int;
        let mut expr = match self.term() {
            Ok(v) => v,
            Err(h) => {
                return Err(h);
            },
        };
        let ops = vec![
            TokenType::GREATER,
            TokenType::GREATER_EQUAL,
            TokenType::LESS,
            TokenType::LESS_EQUAL,
        ];
        assert(ops@ =~= comparison_ops());
        while self.verify(&ops)
            invariant
                toks == old(self).tokens@,
                p0 == old(self).current,
                Self::moves(*old(self), *self),
                comparison_rest(toks, self.current as int, expr@) == comparison_at(toks, p0),
                ops@ == comparison_ops(),
            decreases toks.len() - self.current,
        {
            let op = self.previous();
            let right = match self.term() {
                Ok(v) => v,
                Err(h) => {
                    return Err(h);
                },
            };
            expr = Expr::Binary(Box::new(expr), op, Box::new(right));
        }
        Ok(expr)
    }

    fn term(&mut self) -> (r: Result<Expr, Halt>)
        requires
            old(self).wf(),
        ensures
            Self::moves(*old(self), *final(self)),
            expr_outcome(
                term_at(old(self).tokens@, old(self).current as int),
                r,
                final(self).current as int,
            ),
        decreases old(self).tokens.len() - old(self).current, 140nat,
    {
        let ghost toks = self.tokens@;
        let ghost p0 = self.current as int;
        let mut expr = match self.factor() {
            Ok(v) => v,
            Err(h) => {
                return Err(h);
            },
        };
        let ops = vec![TokenType::MINUS, TokenType::PLUS];
        assert(ops@ =~= term_ops());
        while self.verify(&ops)
            invariant
                toks == old(self).tokens@,
                p0 == old(self).current,
                Self::moves(*old(self), *self),
                term_rest(toks, self.current as int, expr@) == term_at(toks, p0),
                ops@ == term_ops(),
            decreases toks.len() - self.current,
        {
            let op = self.previous();
            let right = match self.factor() {
                Ok(v) => v,
                Err(h) => {
                    return Err(h);
                },
            };
            expr = Expr::Binary(Box::new(expr), op, Box::new(right));
        }
        Ok(expr)
    }

    fn factor(&mut self) -> (r: Result<Expr, Halt>)
        requires
            old(self).wf(),
        ensures
            Self::moves(*old(self), *final(self)),
            expr_outcome(
                factor_at(old(self).tokens@, old(self).current as int),
                r,
                final(self).current as int,
            ),
        decreases old(self).tokens.len() - old(self).current, 130nat,
    {
        let ghost toks = self.tokens@;
        let ghost p0 = self.current as int;
        let mut expr = match self.unary() {
            Ok(v) => v,
            Err(h) => {
                return Err(h);
            },
        };
        let ops = vec![TokenType::SLASH, TokenType::STAR];
        assert(ops@ =~= factor_ops());
        while self.verify(&ops)
            invariant
                toks == old(self).tokens@,
                p0 == old(self).current,
                Self::moves(*old(self), *self),
                factor_rest(toks, self.current as int, expr@) == factor_at(toks, p0),
                ops@ == factor_ops(),
            decreases toks.len() - self.current,
        {
            let op = self.previous();
            let right = match self.unary() {
                Ok(v) => v,
                Err(h) => {
                    return Err(h);
                },
            };
            expr = Expr::Binary(Box::new(expr), op, Box::new(right));
        }
        Ok(expr)
    }

    fn unary(&mut self) -> (r: Result<Expr, Halt>)
        requires
            old(self).wf(),
        ensures
            Self::moves(*old(self), *final(self)),
            expr_outcome(
                unary_at(old(self).tokens@, old(self).current as int),
                r,
                final(self).current as int,
            ),
        decreases old(self).tokens.len() - old(self).current, 120nat,
    {
        let ops = vec![TokenType::BANG, TokenType::MINUS];
        assert(ops@ =~= unary_ops());
        if self.verify(&ops) {
            let op = self.previous();
            let right = match self.unary() {
                Ok(v) => v,
                Err(h) => {
                    return Err(h);
                },
            };
            return Ok(Expr::Unary(op, Box::new(right)));
        }
        self.call()
    }

    fn call(&mut self) -> (r: Result<Expr, Halt>)
        requires
            old(self).wf(),
        ensures
            Self::moves(*old(self), *final(self)),
            expr_outcome(
                call_at(old(self).tokens@, old(self).current as int),
                r,
                final(self).current as int,
            ),
        decreases old(self).tokens.len() - old(self).current, 110nat,
    {
        let ghost toks = self.tokens@;
        let ghost p0 = self.current as int;
        let mut expr = match self.primary() {
            Ok(v) => v,
            Err(h) => {
                return Err(h);
            },
        };
        loop
            invariant
                toks == old(self).tokens@,
                p0 == old(self).current,
                Self::moves(*old(self), *self),
                call_rest(toks, self.current as int, expr@) == call_at(toks, p0),
            ensures
                Self::moves(*old(self), *self),
                call_at(toks, p0) == (Parsed::Done { value: expr@, next: self.current as int }),
            decreases toks.len() - self.current,
        {
            if self.is_match(TokenType::LEFT_PAREN) {
                expr = match self.finish_call(expr) {
                    Ok(v) => v,
                    Err(h) => {
                        return Err(h);
                    },
                };
            } else if self.is_match(TokenType::DOT) {
                let name = match self.consume(TokenType::IDENTIFIER, "Expect property name after '.'.") {
                    Ok(v) => v,
                    Err(h) => {
                        return Err(h);
                    },
                };
                expr = Expr::Get(Box::new(expr), name);
            } else {
                break ;
            }
        }
        Ok(expr)
    }

    /// The arguments of a call whose `(` has been read, and its `)`.
    fn finish_call(&mut self, callee: Expr) -> (r: Result<Expr, Halt>)
        requires
            old(self).wf(),
        ensures
            Self::moves(*old(self), *final(self)),
            expr_outcome(
                finish_call_at(old(self).tokens@, old(self).current as int, callee@),
                r,
                final(self).current as int,
            ),
        decreases old(self).tokens.len() - old(self).current, 300nat,
    {
        let ghost toks = self.tokens@;
        let ghost p0 = self.current as int;
        let ghost total = finish_call_at(toks, p0, callee@);
        let mut arguments: Vec<Expr> = Vec::new();
        assert(exprs_view(arguments@) =~= Seq::<SpecExpr>::empty());
        let is_close = match self.check(TokenType::RIGHT_PAREN) {
            Ok(b) => b,
            Err(h) => {
                return Err(h);
            },
        };
        if !is_close {
            let mut more = true;
            while more
                invariant
                    toks == old(self).tokens@,
                    p0 == old(self).current,
                    total == finish_call_at(toks, p0, callee@),
                    Self::moves(*old(self), *self),
                    more ==> arguments_at(
                        toks,
                        self.current as int,
                        callee@,
                        exprs_view(arguments@),
                    ) == total,
                    !more ==> total == if tok_is(toks, self.current as int, TokenType::RIGHT_PAREN) {
                        Parsed::Done {
                            value: SpecExpr::Call(Box::new(callee@), exprs_view(arguments@)),
                            next: self.current + 1,
                        }
                    } else {
                        Parsed::Aborted { message: "Expect ')' after arguments"@ }
                    },
                decreases toks.len() - self.current, if more {
                    1nat
                } else {
                    0nat
                },
            {
                assert(exprs_view(arguments@).len() == arguments.len());
                if arguments.len() >= 255 {
                    return Err(
                        Halt::Error(
                            LoxError::Error(
                                String::from_str("Can't have more than \n                    255 arguments."),
                            ),
                        ),
                    );
                }
                let e = match self.expression() {
                    Ok(v) => v,
                    Err(h) => {
                        return Err(h);
                    },
                };
                let ghost before = exprs_view(arguments@);
                arguments.push(e);
                assert(exprs_view(arguments@) =~= before.push(e@));
                more = self.is_match(TokenType::COMMA);
            }
        }
        if let Err(h) = self.consume(TokenType::RIGHT_PAREN, "Expect ')' after arguments") {
            return Err(h);
        }
        let callee = Box::new(callee);
        proof {
            lemma_call_view(callee, arguments);
        }
        Ok(Expr::Call(callee, arguments))
    }

    fn primary(&mut self) -> (r: Result<Expr, Halt>)
        requires
            old(self).wf(),
        ensures
            Self::moves(*old(self), *final(self)),
            expr_outcome(
                primary_at(old(self).tokens@, old(self).current as int),
                r,
                final(self).current as int,
            ),
        decreases old(self).tokens.len() - old(self).current, 90nat,
    {
        if self.is_match(TokenType::FALSE) {
            return Ok(Expr::Literal(Object::False));
        }
        if self.is_match(TokenType::TRUE) {
            return Ok(Expr::Literal(Object::True));
        }
        if self.is_match(TokenType::NIL) {
            return Ok(Expr::Literal(Object::Nil));
        }
        let ops = vec![TokenType::NUMBER, TokenType::STRING];
        assert(ops@ =~= literal_ops());
        if self.verify(&ops) {
            match self.previous().literal {
                Some(o) => return Ok(Expr::Literal(o)),
                None => return Err(
                    Halt::Panic(String::from_str("called `Option::unwrap()` on a `None` value")),
                ),
            }
        }
        if self.is_match(TokenType::LEFT_PAREN) {
            let expr = match self.expression() {
                Ok(v) => v,
                Err(h) => {
                    return Err(h);
                },
            };
            if let Err(h) = self.consume(TokenType::RIGHT_PAREN, "Expect ')' after expression.") {
                return Err(h);
            }
            return Ok(Expr::Grouping(Box::new(expr)));
        }
        if self.is_match(TokenType::IDENTIFIER) {
            return Ok(Expr::Variable(Var::new(self.previous())));
        }
        if self.is_match(TokenType::THIS) {
            return Ok(Expr::This(Var::new(self.previous())));
        }
        if self.is_match(TokenType::SUPER) {
            let keyword = self.previous();
            if let Err(h) = self.consume(TokenType::DOT, "Expect '.' after 'super'.") {
                return Err(h);
            }
            let method = match self.consume(TokenType::IDENTIFIER, "Expect superclass method name.") {
                Ok(v) => v,
                Err(h) => {
                    return Err(h);
                },
            };
            return Ok(Expr::Super(Var::new(keyword), method));
        }
        Err(Halt::Error(LoxError::NotExpression))
    }

    // ----------------------------- statements -----------------------------
    /// Moves past the next token and hands it out, if there is one.
    fn advance(&mut self) -> (r: Option<Token>)
        requires
            old(self).wf(),
        ensures
            Self::moves(*old(self), *final(self)),
            old(self).current < old(self).tokens.len() ==> r == Some(
                old(self).tokens@[old(self).current as int],
            ) && final(self).current == old(self).current + 1,
            old(self).current >= old(self).tokens.len() ==> r is None && final(self).current
                == old(self).current,
    {
        if self.current < self.tokens.len() {
            let t = self.tokens[self.current].clone();
            self.current = self.current + 1;
            Some(t)
        } else {
            None
        }
    }

    /// The next token, if there is one.
    fn peek(&self) -> (r: Option<Token>)
        ensures
            self.current < self.tokens.len() ==> r == Some(self.tokens@[self.current as int]),
            self.current >= self.tokens.len() ==> r is None,
    {
        if self.current < self.tokens.len() {
            Some(self.tokens[self.current].clone())
        } else {
            None
        }
    }

    /// Error recovery after a declaration in error: it steps over tokens and
    /// always ends in an error.
    fn synchronize(&mut self) -> (h: Halt)
        requires
            old(self).wf(),
        ensures
            Self::moves(*old(self), *final(self)),
            stmt_outcome(
                synchronize_at(old(self).tokens@, old(self).current as int),
                Err(h),
                final(self).current as int,
            ),
    {
        let ghost toks = self.tokens@;
        let ghost p0 = self.current as int;
        if self.advance().is_none() {
            return Halt::Error(LoxError::TokenListEmpty);
        }
        while !self.is_at_end()
            invariant
                toks == old(self).tokens@,
                p0 == old(self).current,
                Self::moves(*old(self), *self),
                1 <= self.current,
                synchronize_rest(toks, self.current as int) == synchronize_at(toks, p0),
            decreases toks.len() - self.current,
        {
            if self.previous().token_type == TokenType::SEMICOLON {
                return Halt::Error(LoxError::Error(String::from_str("Sync")));
            }
            match self.peek().unwrap().token_type {
                TokenType::CLASS => {},
                TokenType::FUN => {},
                TokenType::VAR => {},
                TokenType::FOR => {},
                TokenType::IF => {},
                TokenType::WHILE => {},
                TokenType::PRINT => {},
                TokenType::RETURN => {},
                _ => {
                    return Halt::Panic(String::from_str("internal error: entered unreachable code"));
                },
            }
            self.advance();
        }
        Halt::Error(LoxError::Error(String::from_str("Sync")))
    }

    /// The declarations of the program, up to its end-of-file token.
    fn statements(&mut self) -> (r: Result<Vec<Statement>, Halt>)
        requires
            old(self).wf(),
        ensures
            Self::moves(*old(self), *final(self)),
            stmts_outcome(
                program_at(old(self).tokens@, old(self).current as int, Seq::empty()),
                r,
                final(self).current as int,
            ),
    {
        let ghost toks = self.tokens@;
        let ghost total = program_at(toks, self.current as int, Seq::empty());
        let mut statements: Vec<Statement> = Vec::new();
        assert(stmts_view(statements@) =~= Seq::<SpecStmt>::empty());
        loop
            invariant_except_break
                program_at(toks, self.current as int, stmts_view(statements@)) == total,
            invariant
                toks == old(self).tokens@,
                total == program_at(toks, old(self).current as int, Seq::empty()),
                Self::moves(*old(self), *self),
            ensures
                Self::moves(*old(self), *self),
                total == (Parsed::Done {
                    value: stmts_view(statements@),
                    next: self.current as int,
                }),
            decreases toks.len() - self.current,
        {
            if self.is_at_end() {
                break ;
            }
            if self.is_match(TokenType::EOF) {
                break ;
            }
            let d = match self.declaration() {
                Ok(v) => v,
                Err(h) => {
                    return Err(h);
                },
            };
            let ghost before = stmts_view(statements@);
            statements.push(d);
            assert(stmts_view(statements@) =~= before.push(d@));
        }
        Ok(statements)
    }

    /// A declaration; when it is in error, error recovery follows.
    fn declaration(&mut self) -> (r: Result<Statement, Halt>)
        requires
            old(self).wf(),
        ensures
            Self::moves(*old(self), *final(self)),
            stmt_outcome(
                declaration_at(old(self).tokens@, old(self).current as int),
                r,
                final(self).current as int,
            ),
            r is Ok ==> old(self).current < final(self).current,
        decreases old(self).tokens.len() - old(self).current, 500nat,
    {
        let attempt = if self.is_match(TokenType::VAR) {
            self.var_declaration()
        } else if self.is_match(TokenType::FUN) {
            self.function(String::from_str("function"))
        } else {
            self.statement()
        };
        match attempt {
            Err(Halt::Error(_)) => {
                if self.current >= self.tokens.len() {
                    let mut m = String::from_str("index out of bounds: the len is ");
                    push_decimal(&mut m, self.tokens.len());
                    m.append(" but the index is ");
                    push_decimal(&mut m, self.current);
                    return Err(Halt::Panic(m));
                }
                Err(self.synchronize())
            },
            other => other,
        }
    }

    /// A function or method whose `fun` (if any) has been read; `kind` names
    /// it in messages.
    fn function(&mut self, kind: String) -> (r: Result<Statement, Halt>)
        requires
            old(self).wf(),
        ensures
            Self::moves(*old(self), *final(self)),
            stmt_outcome(
                function_at(old(self).tokens@, old(self).current as int, kind@),
                r,
                final(self).current as int,
            ),
            r is Ok ==> old(self).current < final(self).current,
        decreases old(self).tokens.len() - old(self).current, 490nat,
    {
        let ghost toks = self.tokens@;
        let ghost p0 = self.current as int;
        let mut m1 = String::from_str("Expect ");
        m1.append(kind.as_str());
        m1.append(" name.");
        let name = match self.consume(TokenType::IDENTIFIER, m1.as_str()) {
            Ok(v) => v,
            Err(h) => {
                return Err(h);
            },
        };
        let mut m2 = String::from_str("Expect '(' after ");
        m2.append(kind.as_str());
        m2.append(" name.");
        if let Err(h) = self.consume(TokenType::LEFT_PAREN, m2.as_str()) {
            return Err(h);
        }
        let ghost params_total = if !(0 <= p0 + 2 < toks.len()) {
            Parsed::Aborted { message: unwrap_message() }
        } else if toks[p0 + 2].token_type != TokenType::RIGHT_PAREN {
            parameters_at(toks, p0 + 2, Seq::empty())
        } else {
            Parsed::Done { value: Seq::<Token>::empty(), next: p0 + 2 }
        };
        let mut parameters: Vec<Token> = Vec::new();
        let is_close = match self.check(TokenType::RIGHT_PAREN) {
            Ok(b) => b,
            Err(h) => {
                return Err(h);
            },
        };
        if !is_close {
            let mut more = true;
            while more
                invariant
                    toks == old(self).tokens@,
                    p0 == old(self).current,
                    p0 + 2 <= self.current,
                    match params_total {
                        Parsed::Failed { error, at } => function_at(toks, p0, kind@)
                            == Parsed::<SpecStmt>::Failed { error, at },
                        Parsed::Aborted { message } => function_at(toks, p0, kind@)
                            == Parsed::<SpecStmt>::Aborted { message },
                        _ => true,
                    },
                    Self::moves(*old(self), *self),
                    more ==> parameters_at(toks, self.current as int, parameters@)
                        == params_total,
                    !more ==> params_total == (Parsed::Done {
                        value: parameters@,
                        next: self.current as int,
                    }),
                decreases toks.len() - self.current, if more {
                    1nat
                } else {
                    0nat
                },
            {
                if parameters.len() >= 255 {
                    return Err(
                        Halt::Error(
                            LoxError::Error(String::from_str("Can't have more than 255 parameters")),
                        ),
                    );
                }
                let param = match self.consume(TokenType::IDENTIFIER, "Expect parameter name.") {
                    Ok(v) => v,
                    Err(h) => {
                        return Err(h);
                    },
                };
                parameters.push(param);
                more = self.is_match(TokenType::COMMA);
            }
        }
        if let Err(h) = self.consume(TokenType::RIGHT_PAREN, "Expect ')' after parameters") {
            return Err(h);
        }
        let mut m3 = String::from_str("Expect '{' before ");
        m3.append(kind.as_str());
        m3.append(" body.");
        if let Err(h) = self.consume(TokenType::LEFT_BRACE, m3.as_str()) {
            return Err(h);
        }
        let body = match self.block_statement() {
            Ok(v) => v,
            Err(h) => {
                return Err(h);
            },
        };
        Ok(Statement::FuncDecl(name, parameters, Box::new(body)))
    }

    /// A variable declaration whose `var` has been read.
    fn var_declaration(&mut self) -> (r: Result<Statement, Halt>)
        requires
            old(self).wf(),
        ensures
            Self::moves(*old(self), *final(self)),
            stmt_outcome(
                var_declaration_at(old(self).tokens@, old(self).current as int),
                r,
                final(self).current as int,
            ),
            r is Ok ==> old(self).current < final(self).current,
    {
        let name = match self.consume(TokenType::IDENTIFIER, "Expect variable name.") {
            Ok(v) => v,
            Err(h) => {
                return Err(h);
            },
        };
        let mut init = Expr::Literal(Object::Nil);
        if self.is_match(TokenType::EQUAL) {
            init = match self.expression() {
                Ok(v) => v,
                Err(h) => {
                    return Err(h);
                },
            };
        }
        if let Err(h) = self.consume(
            TokenType::SEMICOLON,
            "Expecct ';' after variable declaration.",
        ) {
            return Err(h);
        }
        Ok(Statement::VarDecl(name, init))
    }

    fn statement(&mut self) -> (r: Result<Statement, Halt>)
        requires
            old(self).wf(),
        ensures
            Self::moves(*old(self), *final(self)),
            stmt_outcome(
                statement_at(old(self).tokens@, old(self).current as int),
                r,
                final(self).current as int,
            ),
            r is Ok ==> old(self).current < final(self).current,
        decreases old(self).tokens.len() - old(self).current, 480nat,
    {
        if self.is_match(TokenType::PRINT) {
            return self.print_statement();
        }
        if self.is_match(TokenType::LEFT_BRACE) {
            return self.block_statement();
        }
        if self.is_match(TokenType::FOR) {
            return self.for_statement();
        }
        if self.is_match(TokenType::IF) {
            return self.if_statement();
        }
        if self.is_match(TokenType::WHILE) {
            return self.while_statement();
        }
        if self.is_match(TokenType::RETURN) {
            return self.return_statement();
        }
        if self.is_match(TokenType::CLASS) {
            return self.class_statement();
        }
        self.expression_statement()
    }

    /// The clauses of a `for` statement whose `for` has been read, from its
    /// `(` through its `)`.
    fn for_clauses(&mut self) -> (r: Result<(Option<Statement>, Option<Expr>, Option<Expr>), Halt>)
        requires
            old(self).wf(),
        ensures
            Self::moves(*old(self), *final(self)),
            match for_clauses_at(old(self).tokens@, old(self).current as int) {
                Parsed::Done { value, next } => r matches Ok(c) && opt_stmt_view(c.0) == value.0
                    && opt_expr_view(c.1) == value.1 && opt_expr_view(c.2) == value.2
                    && final(self).current == next,
                Parsed::Failed { error, at } => r matches Err(Halt::Error(e)) && e@ == error
                    && final(self).current == at,
                Parsed::Aborted { message } => r matches Err(Halt::Panic(m)) && m@ == message,
            },
            r is Ok ==> old(self).current < final(self).current,
    {
        if let Err(h) = self.consume(TokenType::LEFT_PAREN, "Expect '(' after 'for'.") {
            return Err(h);
        }
        let initializer = if self.is_match(TokenType::SEMICOLON) {
            None
        } else if self.is_match(TokenType::VAR) {
            match self.var_declaration() {
                Ok(v) => Some(v),
                Err(h) => {
                    return Err(h);
                },
            }
        } else {
            match self.expression_statement() {
                Ok(v) => Some(v),
                Err(h) => {
                    return Err(h);
                },
            }
        };
        let at_semicolon = match self.check(TokenType::SEMICOLON) {
            Ok(b) => b,
            Err(h) => {
                return Err(h);
            },
        };
        let condition = if !at_semicolon {
            match self.expression() {
                Ok(v) => Some(v),
                Err(h) => {
                    return Err(h);
                },
            }
        } else {
            None
        };
        if let Err(h) = self.consume(TokenType::SEMICOLON, "Expect ';' after loop condition.") {
            return Err(h);
        }
        let at_close = match self.check(TokenType::RIGHT_PAREN) {
            Ok(b) => b,
            Err(h) => {
                return Err(h);
            },
        };
        let increment = if !at_close {
            match self.expression() {
                Ok(v) => Some(v),
                Err(h) => {
                    return Err(h);
                },
            }
        } else {
            None
        };
        if let Err(h) = self.consume(TokenType::RIGHT_PAREN, "Expect ')' after for clauses.") {
            return Err(h);
        }
        Ok((initializer, condition, increment))
    }

    /// A `for` statement whose `for` has been read, as the `while` loop it
    /// stands for.
    fn for_statement(&mut self) -> (r: Result<Statement, Halt>)
        requires
            old(self).wf(),
        ensures
            Self::moves(*old(self), *final(self)),
            stmt_outcome(
                for_statement_at(old(self).tokens@, old(self).current as int),
                r,
                final(self).current as int,
            ),
        decreases old(self).tokens.len() - old(self).current, 470nat,
    {
        let (initializer, condition, increment) = match self.for_clauses() {
            Ok(c) => c,
            Err(h) => {
                return Err(h);
            },
        };
        let stm = match self.statement() {
            Ok(v) => v,
            Err(h) => {
                return Err(h);
            },
        };
        Ok(desugar(initializer, condition, increment, stm))
    }

    /// A class declaration whose `class` has been read.
    fn class_statement(&mut self) -> (r: Result<Statement, Halt>)
        requires
            old(self).wf(),
        ensures
            Self::moves(*old(self), *final(self)),
            stmt_outcome(
                class_statement_at(old(self).tokens@, old(self).current as int),
                r,
                final(self).current as int,
            ),
        decreases old(self).tokens.len() - old(self).current, 470nat,
    {
        let ghost toks = self.tokens@;
        let name = match self.consume(TokenType::IDENTIFIER, "Expect class name.") {
            Ok(v) => v,
            Err(h) => {
                return Err(h);
            },
        };
        let mut superclass: Option<Var> = None;
        if self.is_match(TokenType::LESS) {
            if let Err(h) = self.consume(TokenType::IDENTIFIER, "Expect superclass name.") {
                return Err(h);
            }
            superclass = Some(Var::new(self.previous()));
        }
        if let Err(h) = self.consume(TokenType::LEFT_BRACE, "Expect '{' before class body.") {
            return Err(h);
        }
        let ghost total = class_body_at(
            toks,
            self.current as int,
            name,
            superclass,
            Seq::empty(),
        );
        let mut methods: Vec<Statement> = Vec::new();
        assert(stmts_view(methods@) =~= Seq::<SpecStmt>::empty());
        assert(class_statement_at(toks, old(self).current as int) == total);
        loop
            invariant
                toks == old(self).tokens@,
                class_statement_at(toks, old(self).current as int) == total,
                old(self).current < self.current,
                Self::moves(*old(self), *self),
                class_body_at(toks, self.current as int, name, superclass, stmts_view(methods@))
                    == total,
            ensures
                Self::moves(*old(self), *self),
                tok_is(toks, self.current as int, TokenType::RIGHT_BRACE),
                total == (Parsed::Done {
                    value: SpecStmt::ClassDecl(name, superclass, stmts_view(methods@)),
                    next: self.current + 1,
                }),
            decreases toks.len() - self.current,
        {
            let at_close = match self.check(TokenType::RIGHT_BRACE) {
                Ok(b) => b,
                Err(h) => {
                    return Err(h);
                },
            };
            if at_close || self.is_at_end() {
                break ;
            }
            let m = match self.function(String::from_str("method")) {
                Ok(v) => v,
                Err(h) => {
                    return Err(h);
                },
            };
            let ghost before = stmts_view(methods@);
            methods.push(m);
            assert(stmts_view(methods@) =~= before.push(m@));
        }
        if let Err(h) = self.consume(TokenType::RIGHT_BRACE, "Expect '}' after class body.") {
            return Err(h);
        }
        proof {
            lemma_class_view(name, superclass, methods);
        }
        Ok(Statement::ClassDecl(name, superclass, methods))
    }

    /// A `while` statement whose `while` has been read.
    fn while_statement(&mut self) -> (r: Result<Statement, Halt>)
        requires
            old(self).wf(),
        ensures
            Self::moves(*old(self), *final(self)),
            stmt_outcome(
                while_statement_at(old(self).tokens@, old(self).current as int),
                r,
                final(self).current as int,
            ),
        decreases old(self).tokens.len() - old(self).current, 470nat,
    {
        if let Err(h) = self.consume(TokenType::LEFT_PAREN, "Expect '(' after 'while'.") {
            return Err(h);
        }
        let cond = match self.expression() {
            Ok(v) => v,
            Err(h) => {
                return Err(h);
            },
        };
        if let Err(h) = self.consume(TokenType::RIGHT_PAREN, "Expect ')' after condition") {
            return Err(h);
        }
        let body = match self.statement() {
            Ok(v) => v,
            Err(h) => {
                return Err(h);
            },
        };
        Ok(Statement::While(cond, Box::new(body)))
    }

    /// An `if` statement whose `if` has been read.
    fn if_statement(&mut self) -> (r: Result<Statement, Halt>)
        requires
            old(self).wf(),
        ensures
            Self::moves(*old(self), *final(self)),
            stmt_outcome(
                if_statement_at(old(self).tokens@, old(self).current as int),
                r,
                final(self).current as int,
            ),
        decreases old(self).tokens.len() - old(self).current, 470nat,
    {
        if let Err(h) = self.consume(TokenType::LEFT_PAREN, "Expect '(' after 'if'.") {
            return Err(h);
        }
        let condition = match self.expression() {
            Ok(v) => v,
            Err(h) => {
                return Err(h);
            },
        };
        if let Err(h) = self.consume(TokenType::RIGHT_PAREN, "Expect ')' after if condition") {
            return Err(h);
        }
        let then_branch = match self.statement() {
            Ok(v) => v,
            Err(h) => {
                return Err(h);
            },
        };
        let mut else_branch = None;
        if self.is_match(TokenType::ELSE) {
            else_branch = match self.statement() {
                Ok(v) => Some(Box::new(v)),
                Err(h) => {
                    return Err(h);
                },
            };
        }
        Ok(Statement::If(condition, Box::new(then_branch), else_branch))
    }

    /// A block whose `{` has been read.
    fn block_statement(&mut self) -> (r: Result<Statement, Halt>)
        requires
            old(self).wf(),
        ensures
            Self::moves(*old(self), *final(self)),
            stmt_outcome(
                block_at(old(self).tokens@, old(self).current as int),
                r,
                final(self).current as int,
            ),
        decreases old(self).tokens.len() - old(self).current, 510nat,
    {
        let ghost toks = self.tokens@;
        let ghost total = block_at(toks, self.current as int);
        let mut statements: VecDeque<Statement> = VecDeque::new();
        assert(stmts_view(statements@) =~= Seq::<SpecStmt>::empty());
        loop
            invariant
                toks == old(self).tokens@,
                total == block_at(toks, old(self).current as int),
                Self::moves(*old(self), *self),
                block_rest(toks, self.current as int, stmts_view(statements@)) == total,
            ensures
                Self::moves(*old(self), *self),
                tok_is(toks, self.current as int, TokenType::RIGHT_BRACE),
                total == (Parsed::Done {
                    value: SpecStmt::Block(stmts_view(statements@)),
                    next: self.current + 1,
                }),
            decreases toks.len() - self.current,
        {
            let at_close = match self.check(TokenType::RIGHT_BRACE) {
                Ok(b) => b,
                Err(h) => {
                    return Err(h);
                },
            };
            if at_close || self.is_at_end() {
                break ;
            }
            let d = match self.declaration() {
                Ok(v) => v,
                Err(h) => {
                    return Err(h);
                },
            };
            let ghost before = stmts_view(statements@);
            statements.push_back(d);
            assert(stmts_view(statements@) =~= before.push(d@));
        }
        if let Err(h) = self.consume(TokenType::RIGHT_BRACE, "Expect '}' after block.") {
            return Err(h);
        }
        proof {
            lemma_block_view(statements);
        }
        Ok(Statement::Block(statements))
    }

    /// A `print` statement whose `print` has been read.
    fn print_statement(&mut self) -> (r: Result<Statement, Halt>)
        requires
            old(self).wf(),
        ensures
            Self::moves(*old(self), *final(self)),
            stmt_outcome(
                print_statement_at(old(self).tokens@, old(self).current as int),
                r,
                final(self).current as int,
            ),
    {
        let value = match self.expression() {
            Ok(v) => v,
            Err(h) => {
                return Err(h);
            },
        };
        if let Err(h) = self.consume(TokenType::SEMICOLON, "Expect ';' after value.") {
            return Err(h);
        }
        Ok(Statement::Print(value))
    }

    /// A `return` statement whose `return` has been read.
    fn return_statement(&mut self) -> (r: Result<Statement, Halt>)
        requires
            old(self).wf(),
        ensures
            Self::moves(*old(self), *final(self)),
            stmt_outcome(
                return_statement_at(old(self).tokens@, old(self).current as int),
                r,
                final(self).current as int,
            ),
    {
        let at_semicolon = match self.check(TokenType::SEMICOLON) {
            Ok(b) => b,
            Err(h) => {
                return Err(h);
            },
        };
        let stm = if !at_semicolon {
            match self.expression() {
                Ok(v) => Statement::Return(v),
                Err(h) => {
                    return Err(h);
                },
            }
        } else {
            Statement::Return(Expr::Literal(Object::Nil))
        };
        if let Err(h) = self.consume(TokenType::SEMICOLON, "Expect ';' after return value") {
            return Err(h);
        }
        Ok(stm)
    }

    fn expression_statement(&mut self) -> (r: Result<Statement, Halt>)
        requires
            old(self).wf(),
        ensures
            Self::moves(*old(self), *final(self)),
            stmt_outcome(
                expression_statement_at(old(self).tokens@, old(self).current as int),
                r,
                final(self).current as int,
            ),
            r is Ok ==> old(self).current < final(self).current,
    {
        let expr = match self.expression() {
            Ok(v) => v,
            Err(h) => {
                return Err(h);
            },
        };
        if let Err(h) = self.consume(TokenType::SEMICOLON, "Expect ';' after expression") {
            return Err(h);
        }
        Ok(Statement::Expr(expr))
    }
}

} // verus!
