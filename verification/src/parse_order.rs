use vstd::prelude::*;

use crate::expressions::SpecExpr;
use crate::grammar::{
    assign_to,
    comparison_ops,
    equality_ops,
    expr_rule,
    factor_ops,
    term_ops,
    tok_in,
    tok_is,
    unary_ops,
    ExprRule,
    Parsed,
};
use crate::tokens::{Object, Token, TokenType};

verus! {

// ---------------------------------------------------------------------------
// The leaves that an expression keeps from its source, in source order.
// ---------------------------------------------------------------------------
/// A leaf of an expression tree: a token that the tree keeps (a name or an
/// operator) or the value of a literal.
pub enum Piece {
    Name(Token),
    Value(Object),
}

/// The leaves that the token `t` leaves in an expression tree: names
/// (of variables, of properties, `this`, `super`) and operators are kept,
/// literal tokens give their value, and punctuation and `=` give nothing.
pub open spec fn pieces_of(t: Token) -> Seq<Piece> {
    if t.token_type == TokenType::IDENTIFIER || t.token_type == TokenType::THIS
        || t.token_type == TokenType::SUPER || t.token_type == TokenType::BANG
        || t.token_type == TokenType::MINUS || t.token_type == TokenType::PLUS
        || t.token_type == TokenType::SLASH || t.token_type == TokenType::STAR
        || t.token_type == TokenType::BANG_EQUAL || t.token_type == TokenType::EQUAL_EQUAL
        || t.token_type == TokenType::GREATER || t.token_type == TokenType::GREATER_EQUAL
        || t.token_type == TokenType::LESS || t.token_type == TokenType::LESS_EQUAL
        || t.token_type == TokenType::AND || t.token_type == TokenType::OR {
        seq![Piece::Name(t)]
    } else if t.token_type == TokenType::FALSE {
        seq![Piece::Value(Object::False)]
    } else if t.token_type == TokenType::TRUE {
        seq![Piece::Value(Object::True)]
    } else if t.token_type == TokenType::NIL {
        seq![Piece::Value(Object::Nil)]
    } else if (t.token_type == TokenType::NUMBER || t.token_type == TokenType::STRING)
        && t.literal is Some {
        seq![Piece::Value(t.literal->Some_0)]
    } else {
        Seq::empty()
    }
}

/// The leaves of `toks[p..q]`, in order.
pub open spec fn pieces_between(toks: Seq<Token>, p: int, q: int) -> Seq<Piece>
    decreases q - p,
{
    if q <= p {
        Seq::empty()
    } else {
        pieces_between(toks, p, q - 1) + pieces_of(toks[q - 1])
    }
}

/// The leaves of the expression `e`, read left to right as its source reads.
pub open spec fn expr_pieces(e: SpecExpr) -> Seq<Piece>
    decreases e, 1nat,
{
    match e {
        SpecExpr::Binary(l, t, r) => expr_pieces(*l) + seq![Piece::Name(t)] + expr_pieces(*r),
        SpecExpr::Grouping(x) => expr_pieces(*x),
        SpecExpr::Literal(o) => seq![Piece::Value(o)],
        SpecExpr::Unary(t, x) => seq![Piece::Name(t)] + expr_pieces(*x),
        SpecExpr::Variable(v) => seq![Piece::Name(v.identifier)],
        SpecExpr::Assignment(v, x) => seq![Piece::Name(v.identifier)] + expr_pieces(*x),
        SpecExpr::Logical(l, t, r) => expr_pieces(*l) + seq![Piece::Name(t)] + expr_pieces(*r),
        SpecExpr::Call(c, args) => expr_pieces(*c) + args_pieces(args),
        SpecExpr::Get(x, n) => expr_pieces(*x) + seq![Piece::Name(n)],
        SpecExpr::SetField(value, n, object) => expr_pieces(*object) + seq![Piece::Name(n)]
            + expr_pieces(*value),
        SpecExpr::This(v) => seq![Piece::Name(v.identifier)],
        SpecExpr::Super(v, m) => seq![Piece::Name(v.identifier), Piece::Name(m)],
    }
}

/// The leaves of the arguments `args`, the first argument's first.
pub open spec fn args_pieces(args: Seq<SpecExpr>) -> Seq<Piece>
    decreases args, 0nat,
{
    if args.len() == 0 {
        Seq::empty()
    } else {
        expr_pieces(args[0]) + args_pieces(args.subrange(1, args.len() as int))
    }
}

/// The leaves that a rule has in hand before it reads: the left operand or
/// the callee read so far, and the arguments read so far.
pub open spec fn rule_pieces(rule: ExprRule) -> Seq<Piece> {
    match rule {
        ExprRule::OrRest(l) => expr_pieces(l),
        ExprRule::AndRest(l) => expr_pieces(l),
        ExprRule::EqualityRest(l) => expr_pieces(l),
        ExprRule::ComparisonRest(l) => expr_pieces(l),
        ExprRule::TermRest(l) => expr_pieces(l),
        ExprRule::FactorRest(l) => expr_pieces(l),
        ExprRule::CallRest(c) => expr_pieces(c),
        ExprRule::FinishCall(c) => expr_pieces(c),
        ExprRule::Arguments(c, args) => expr_pieces(c) + args_pieces(args),
        _ => Seq::empty(),
    }
}

proof fn lemma_pieces_concat(toks: Seq<Token>, p: int, q: int, r: int)
    requires
        p <= q <= r,
    ensures
        pieces_between(toks, p, q) + pieces_between(toks, q, r) =~= pieces_between(toks, p, r),
    decreases r - q,
{
    if q < r {
        lemma_pieces_concat(toks, p, q, r - 1);
    }
}

proof fn lemma_args_push(args: Seq<SpecExpr>, a: SpecExpr)
    ensures
        args_pieces(args.push(a)) =~= args_pieces(args) + expr_pieces(a),
    decreases args.len(),
{
    if args.len() > 0 {
        let rest = args.subrange(1, args.len() as int);
        assert(args.push(a).subrange(1, args.len() as int + 1) =~= rest.push(a));
        lemma_args_push(rest, a);
        assert(args.push(a)[0] == args[0]);
        assert(args_pieces(args.push(a)) =~= expr_pieces(args[0]) + (args_pieces(rest)
            + expr_pieces(a)));
    } else {
        assert(args.push(a).subrange(1, 1) =~= Seq::<SpecExpr>::empty());
        assert(args.push(a)[0] == a);
        assert(args_pieces(Seq::<SpecExpr>::empty()) =~= Seq::<Piece>::empty());
        assert(args_pieces(args.push(a)) =~= expr_pieces(a) + Seq::<Piece>::empty());
    }
}

/// The leaves of one token.
proof fn lemma_one(toks: Seq<Token>, p: int)
    ensures
        pieces_between(toks, p, p + 1) =~= pieces_of(toks[p]),
{
    assert(pieces_between(toks, p, p) =~= Seq::<Piece>::empty());
}

/// Reading an expression keeps the order of its source: the leaves of the
/// expression read, in order, are the leaves that the rule had in hand
/// (the left operand or callee so far) followed by those of the tokens read:
/// the left operand of an operator is read before it and the right one
/// after it, and the arguments of a call come in the order of the source.
pub proof fn law_expr_order(toks: Seq<Token>, p: int, rule: ExprRule)
    ensures
        expr_rule(toks, p, rule) matches Parsed::Done { value, next } ==> p <= next
            && expr_pieces(value) =~= rule_pieces(rule) + pieces_between(toks, p, next),
    decreases toks.len() - p, crate::grammar::expr_rank(rule), 1nat,
{
    match rule {
        ExprRule::Expression => {
            order_expression(toks, p);
        },
        ExprRule::Assignment => {
            order_assignment(toks, p);
        },
        ExprRule::Or => {
            order_or(toks, p);
        },
        ExprRule::OrRest(left) => {
            order_or_rest(toks, p, left);
        },
        ExprRule::And => {
            order_and(toks, p);
        },
        ExprRule::AndRest(left) => {
            order_and_rest(toks, p, left);
        },
        ExprRule::Equality => {
            order_equality(toks, p);
        },
        ExprRule::EqualityRest(left) => {
            order_equality_rest(toks, p, left);
        },
        ExprRule::Comparison => {
            order_comparison(toks, p);
        },
        ExprRule::ComparisonRest(left) => {
            order_comparison_rest(toks, p, left);
        },
        ExprRule::Term => {
            order_term(toks, p);
        },
        ExprRule::TermRest(left) => {
            order_term_rest(toks, p, left);
        },
        ExprRule::Factor => {
            order_factor(toks, p);
        },
        ExprRule::FactorRest(left) => {
            order_factor_rest(toks, p, left);
        },
        ExprRule::Unary => {
            order_unary(toks, p);
        },
        ExprRule::Call => {
            order_call(toks, p);
        },
        ExprRule::CallRest(e) => {
            order_call_rest(toks, p, e);
        },
        ExprRule::FinishCall(callee) => {
            order_finish_call(toks, p, callee);
        },
        ExprRule::Arguments(callee, args) => {
            order_arguments(toks, p, callee, args);
        },
        ExprRule::Primary => {
            order_primary(toks, p);
        },
    }
}

// The steps of `law_expr_order`, one for each rule.
proof fn order_expression(toks: Seq<Token>, p: int)
    ensures
        expr_rule(toks, p, ExprRule::Expression) matches Parsed::Done { value, next } ==> p <= next
            && expr_pieces(value) =~= rule_pieces(ExprRule::Expression) + pieces_between(toks, p, next),
    decreases toks.len() - p, crate::grammar::expr_rank(ExprRule::Expression), 0nat,
{
    law_expr_order(toks, p, ExprRule::Assignment);
}

proof fn order_assignment(toks: Seq<Token>, p: int)
    ensures
        expr_rule(toks, p, ExprRule::Assignment) matches Parsed::Done { value, next } ==> p <= next
            && expr_pieces(value) =~= rule_pieces(ExprRule::Assignment) + pieces_between(toks, p, next),
    decreases toks.len() - p, crate::grammar::expr_rank(ExprRule::Assignment), 0nat,
{
    law_expr_order(toks, p, ExprRule::Or);
    if let Parsed::Done { value: expr, next: p1 } = expr_rule(toks, p, ExprRule::Or) {
        if tok_is(toks, p1, TokenType::EQUAL) && p <= p1 {
            law_expr_order(toks, p1 + 1, ExprRule::Assignment);
            if let Parsed::Done { value: val, next } = expr_rule(
                toks,
                p1 + 1,
                ExprRule::Assignment,
            ) {
                lemma_one(toks, p1);
                lemma_pieces_concat(toks, p, p1, p1 + 1);
                lemma_pieces_concat(toks, p, p1 + 1, next);
            }
        }
    }
}

proof fn order_or(toks: Seq<Token>, p: int)
    ensures
        expr_rule(toks, p, ExprRule::Or) matches Parsed::Done { value, next } ==> p <= next
            && expr_pieces(value) =~= rule_pieces(ExprRule::Or) + pieces_between(toks, p, next),
    decreases toks.len() - p, crate::grammar::expr_rank(ExprRule::Or), 0nat,
{
    let r = expr_rule(toks, p, ExprRule::Or);
    law_expr_order(toks, p, ExprRule::And);
    if let Parsed::Done { value, next } = expr_rule(toks, p, ExprRule::And) {
        if p <= next <= toks.len() {
            law_expr_order(toks, next, ExprRule::OrRest(value));
            if let Parsed::Done { next: q, .. } = r {
                lemma_pieces_concat(toks, p, next, q);
            }
        }
    }
}

proof fn order_or_rest(toks: Seq<Token>, p: int, left: SpecExpr)
    ensures
        expr_rule(toks, p, ExprRule::OrRest(left)) matches Parsed::Done { value, next } ==> p <= next
            && expr_pieces(value) =~= rule_pieces(ExprRule::OrRest(left)) + pieces_between(toks, p, next),
    decreases toks.len() - p, crate::grammar::expr_rank(ExprRule::OrRest(left)), 0nat,
{
    let r = expr_rule(toks, p, ExprRule::OrRest(left));
    if tok_is(toks, p, TokenType::OR) {
        law_expr_order(toks, p + 1, ExprRule::And);
        if let Parsed::Done { value: right, next } = expr_rule(toks, p + 1, ExprRule::And) {
            if p < next <= toks.len() {
                let l2 = SpecExpr::Logical(Box::new(left), toks[p], Box::new(right));
                law_expr_order(toks, next, ExprRule::OrRest(l2));
                if let Parsed::Done { next: q, .. } = r {
                    lemma_operator(toks, p);
                    lemma_one(toks, p);
                    assert(expr_pieces(l2) =~= expr_pieces(left) + seq![Piece::Name(toks[p])]
                        + expr_pieces(right));
                    lemma_step(toks, p, next, q);
                }
            }
        }
    }
}

proof fn order_and(toks: Seq<Token>, p: int)
    ensures
        expr_rule(toks, p, ExprRule::And) matches Parsed::Done { value, next } ==> p <= next
            && expr_pieces(value) =~= rule_pieces(ExprRule::And) + pieces_between(toks, p, next),
    decreases toks.len() - p, crate::grammar::expr_rank(ExprRule::And), 0nat,
{
    let r = expr_rule(toks, p, ExprRule::And);
    law_expr_order(toks, p, ExprRule::Equality);
    if let Parsed::Done { value, next } = expr_rule(toks, p, ExprRule::Equality) {
        if p <= next <= toks.len() {
            law_expr_order(toks, next, ExprRule::AndRest(value));
            if let Parsed::Done { next: q, .. } = r {
                lemma_pieces_concat(toks, p, next, q);
            }
        }
    }
}

proof fn order_and_rest(toks: Seq<Token>, p: int, left: SpecExpr)
    ensures
        expr_rule(toks, p, ExprRule::AndRest(left)) matches Parsed::Done { value, next } ==> p <= next
            && expr_pieces(value) =~= rule_pieces(ExprRule::AndRest(left)) + pieces_between(toks, p, next),
    decreases toks.len() - p, crate::grammar::expr_rank(ExprRule::AndRest(left)), 0nat,
{
    let r = expr_rule(toks, p, ExprRule::AndRest(left));
    if tok_is(toks, p, TokenType::AND) {
        law_expr_order(toks, p + 1, ExprRule::Equality);
        if let Parsed::Done { value: right, next } = expr_rule(
            toks,
            p + 1,
            ExprRule::Equality,
        ) {
            if p < next <= toks.len() {
                let l2 = SpecExpr::Logical(Box::new(left), toks[p], Box::new(right));
                law_expr_order(toks, next, ExprRule::AndRest(l2));
                if let Parsed::Done { next: q, .. } = r {
                    lemma_operator(toks, p);
                    lemma_one(toks, p);
                    assert(expr_pieces(l2) =~= expr_pieces(left) + seq![Piece::Name(toks[p])]
                        + expr_pieces(right));
                    lemma_step(toks, p, next, q);
                }
            }
        }
    }
}

proof fn order_equality(toks: Seq<Token>, p: int)
    ensures
        expr_rule(toks, p, ExprRule::Equality) matches Parsed::Done { value, next } ==> p <= next
            && expr_pieces(value) =~= rule_pieces(ExprRule::Equality) + pieces_between(toks, p, next),
    decreases toks.len() - p, crate::grammar::expr_rank(ExprRule::Equality), 0nat,
{
    let r = expr_rule(toks, p, ExprRule::Equality);
    law_expr_order(toks, p, ExprRule::Comparison);
    if let Parsed::Done { value, next } = expr_rule(toks, p, ExprRule::Comparison) {
        if p <= next <= toks.len() {
            law_expr_order(toks, next, ExprRule::EqualityRest(value));
            if let Parsed::Done { next: q, .. } = r {
                lemma_pieces_concat(toks, p, next, q);
            }
        }
    }
}

proof fn order_equality_rest(toks: Seq<Token>, p: int, left: SpecExpr)
    ensures
        expr_rule(toks, p, ExprRule::EqualityRest(left)) matches Parsed::Done { value, next } ==> p <= next
            && expr_pieces(value) =~= rule_pieces(ExprRule::EqualityRest(left)) + pieces_between(toks, p, next),
    decreases toks.len() - p, crate::grammar::expr_rank(ExprRule::EqualityRest(left)), 0nat,
{
    let r = expr_rule(toks, p, ExprRule::EqualityRest(left));
    if tok_in(toks, p, equality_ops()) {
        law_expr_order(toks, p + 1, ExprRule::Comparison);
        if let Parsed::Done { value: right, next } = expr_rule(
            toks,
            p + 1,
            ExprRule::Comparison,
        ) {
            if p < next <= toks.len() {
                let l2 = SpecExpr::Binary(Box::new(left), toks[p], Box::new(right));
                law_expr_order(toks, next, ExprRule::EqualityRest(l2));
                if let Parsed::Done { next: q, .. } = r {
                    lemma_operator(toks, p);
                    lemma_one(toks, p);
                    assert(expr_pieces(l2) =~= expr_pieces(left) + seq![Piece::Name(toks[p])]
                        + expr_pieces(right));
                    lemma_step(toks, p, next, q);
                }
            }
        }
    }
}

proof fn order_comparison(toks: Seq<Token>, p: int)
    ensures
        expr_rule(toks, p, ExprRule::Comparison) matches Parsed::Done { value, next } ==> p <= next
            && expr_pieces(value) =~= rule_pieces(ExprRule::Comparison) + pieces_between(toks, p, next),
    decreases toks.len() - p, crate::grammar::expr_rank(ExprRule::Comparison), 0nat,
{
    let r = expr_rule(toks, p, ExprRule::Comparison);
    law_expr_order(toks, p, ExprRule::Term);
    if let Parsed::Done { value, next } = expr_rule(toks, p, ExprRule::Term) {
        if p <= next <= toks.len() {
            law_expr_order(toks, next, ExprRule::ComparisonRest(value));
            if let Parsed::Done { next: q, .. } = r {
                lemma_pieces_concat(toks, p, next, q);
            }
        }
    }
}

proof fn order_comparison_rest(toks: Seq<Token>, p: int, left: SpecExpr)
    ensures
        expr_rule(toks, p, ExprRule::ComparisonRest(left)) matches Parsed::Done { value, next } ==> p <= next
            && expr_pieces(value) =~= rule_pieces(ExprRule::ComparisonRest(left)) + pieces_between(toks, p, next),
    decreases toks.len() - p, crate::grammar::expr_rank(ExprRule::ComparisonRest(left)), 0nat,
{
    let r = expr_rule(toks, p, ExprRule::ComparisonRest(left));
    if tok_in(toks, p, comparison_ops()) {
        law_expr_order(toks, p + 1, ExprRule::Term);
        if let Parsed::Done { value: right, next } = expr_rule(toks, p + 1, ExprRule::Term) {
            if p < next <= toks.len() {
                let l2 = SpecExpr::Binary(Box::new(left), toks[p], Box::new(right));
                law_expr_order(toks, next, ExprRule::ComparisonRest(l2));
                if let Parsed::Done { next: q, .. } = r {
                    lemma_operator(toks, p);
                    lemma_one(toks, p);
                    assert(expr_pieces(l2) =~= expr_pieces(left) + seq![Piece::Name(toks[p])]
                        + expr_pieces(right));
                    lemma_step(toks, p, next, q);
                }
            }
        }
    }
}

proof fn order_term(toks: Seq<Token>, p: int)
    ensures
        expr_rule(toks, p, ExprRule::Term) matches Parsed::Done { value, next } ==> p <= next
            && expr_pieces(value) =~= rule_pieces(ExprRule::Term) + pieces_between(toks, p, next),
    decreases toks.len() - p, crate::grammar::expr_rank(ExprRule::Term), 0nat,
{
    let r = expr_rule(toks, p, ExprRule::Term);
    law_expr_order(toks, p, ExprRule::Factor);
    if let Parsed::Done { value, next } = expr_rule(toks, p, ExprRule::Factor) {
        if p <= next <= toks.len() {
            law_expr_order(toks, next, ExprRule::TermRest(value));
            if let Parsed::Done { next: q, .. } = r {
                lemma_pieces_concat(toks, p, next, q);
            }
        }
    }
}

proof fn order_term_rest(toks: Seq<Token>, p: int, left: SpecExpr)
    ensures
        expr_rule(toks, p, ExprRule::TermRest(left)) matches Parsed::Done { value, next } ==> p <= next
            && expr_pieces(value) =~= rule_pieces(ExprRule::TermRest(left)) + pieces_between(toks, p, next),
    decreases toks.len() - p, crate::grammar::expr_rank(ExprRule::TermRest(left)), 0nat,
{
    let r = expr_rule(toks, p, ExprRule::TermRest(left));
    if tok_in(toks, p, term_ops()) {
        law_expr_order(toks, p + 1, ExprRule::Factor);
        if let Parsed::Done { value: right, next } = expr_rule(toks, p + 1, ExprRule::Factor) {
            if p < next <= toks.len() {
                let l2 = SpecExpr::Binary(Box::new(left), toks[p], Box::new(right));
                law_expr_order(toks, next, ExprRule::TermRest(l2));
                if let Parsed::Done { next: q, .. } = r {
                    lemma_operator(toks, p);
                    lemma_one(toks, p);
                    assert(expr_pieces(l2) =~= expr_pieces(left) + seq![Piece::Name(toks[p])]
                        + expr_pieces(right));
                    lemma_step(toks, p, next, q);
                }
            }
        }
    }
}

proof fn order_factor(toks: Seq<Token>, p: int)
    ensures
        expr_rule(toks, p, ExprRule::Factor) matches Parsed::Done { value, next } ==> p <= next
            && expr_pieces(value) =~= rule_pieces(ExprRule::Factor) + pieces_between(toks, p, next),
    decreases toks.len() - p, crate::grammar::expr_rank(ExprRule::Factor), 0nat,
{
    let r = expr_rule(toks, p, ExprRule::Factor);
    law_expr_order(toks, p, ExprRule::Unary);
    if let Parsed::Done { value, next } = expr_rule(toks, p, ExprRule::Unary) {
        if p <= next <= toks.len() {
            law_expr_order(toks, next, ExprRule::FactorRest(value));
            if let Parsed::Done { next: q, .. } = r {
                lemma_pieces_concat(toks, p, next, q);
            }
        }
    }
}

proof fn order_factor_rest(toks: Seq<Token>, p: int, left: SpecExpr)
    ensures
        expr_rule(toks, p, ExprRule::FactorRest(left)) matches Parsed::Done { value, next } ==> p <= next
            && expr_pieces(value) =~= rule_pieces(ExprRule::FactorRest(left)) + pieces_between(toks, p, next),
    decreases toks.len() - p, crate::grammar::expr_rank(ExprRule::FactorRest(left)), 0nat,
{
    let r = expr_rule(toks, p, ExprRule::FactorRest(left));
    if tok_in(toks, p, factor_ops()) {
        law_expr_order(toks, p + 1, ExprRule::Unary);
        if let Parsed::Done { value: right, next } = expr_rule(toks, p + 1, ExprRule::Unary) {
            if p < next <= toks.len() {
                let l2 = SpecExpr::Binary(Box::new(left), toks[p], Box::new(right));
                law_expr_order(toks, next, ExprRule::FactorRest(l2));
                if let Parsed::Done { next: q, .. } = r {
                    lemma_operator(toks, p);
                    lemma_one(toks, p);
                    assert(expr_pieces(l2) =~= expr_pieces(left) + seq![Piece::Name(toks[p])]
                        + expr_pieces(right));
                    lemma_step(toks, p, next, q);
                }
            }
        }
    }
}

proof fn order_unary(toks: Seq<Token>, p: int)
    ensures
        expr_rule(toks, p, ExprRule::Unary) matches Parsed::Done { value, next } ==> p <= next
            && expr_pieces(value) =~= rule_pieces(ExprRule::Unary) + pieces_between(toks, p, next),
    decreases toks.len() - p, crate::grammar::expr_rank(ExprRule::Unary), 0nat,
{
    if tok_in(toks, p, unary_ops()) {
        law_expr_order(toks, p + 1, ExprRule::Unary);
        if let Parsed::Done { next, .. } = expr_rule(toks, p + 1, ExprRule::Unary) {
            lemma_one(toks, p);
            lemma_pieces_concat(toks, p, p + 1, next);
        }
    } else {
        law_expr_order(toks, p, ExprRule::Call);
    }
}

proof fn order_call(toks: Seq<Token>, p: int)
    ensures
        expr_rule(toks, p, ExprRule::Call) matches Parsed::Done { value, next } ==> p <= next
            && expr_pieces(value) =~= rule_pieces(ExprRule::Call) + pieces_between(toks, p, next),
    decreases toks.len() - p, crate::grammar::expr_rank(ExprRule::Call), 0nat,
{
    let r = expr_rule(toks, p, ExprRule::Call);
    law_expr_order(toks, p, ExprRule::Primary);
    if let Parsed::Done { value, next } = expr_rule(toks, p, ExprRule::Primary) {
        if p <= next <= toks.len() {
            law_expr_order(toks, next, ExprRule::CallRest(value));
            if let Parsed::Done { next: q, .. } = r {
                lemma_pieces_concat(toks, p, next, q);
            }
        }
    }
}

proof fn order_call_rest(toks: Seq<Token>, p: int, e: SpecExpr)
    ensures
        expr_rule(toks, p, ExprRule::CallRest(e)) matches Parsed::Done { value, next } ==> p <= next
            && expr_pieces(value) =~= rule_pieces(ExprRule::CallRest(e)) + pieces_between(toks, p, next),
    decreases toks.len() - p, crate::grammar::expr_rank(ExprRule::CallRest(e)), 0nat,
{
    let r = expr_rule(toks, p, ExprRule::CallRest(e));
    if tok_is(toks, p, TokenType::LEFT_PAREN) {
        law_expr_order(toks, p + 1, ExprRule::FinishCall(e));
        if let Parsed::Done { value, next } = expr_rule(toks, p + 1, ExprRule::FinishCall(e)) {
            if p < next <= toks.len() {
                law_expr_order(toks, next, ExprRule::CallRest(value));
                if let Parsed::Done { next: q, .. } = r {
                    lemma_one(toks, p);
                    lemma_pieces_concat(toks, p, p + 1, next);
                    lemma_pieces_concat(toks, p, next, q);
                }
            }
        }
    } else if tok_is(toks, p, TokenType::DOT) && tok_is(toks, p + 1, TokenType::IDENTIFIER) {
        let g = SpecExpr::Get(Box::new(e), toks[p + 1]);
        law_expr_order(toks, p + 2, ExprRule::CallRest(g));
        if let Parsed::Done { next: q, .. } = r {
            lemma_one(toks, p);
            lemma_one(toks, p + 1);
            lemma_pieces_concat(toks, p, p + 1, p + 2);
            lemma_pieces_concat(toks, p, p + 2, q);
        }
    }
}

proof fn order_finish_call(toks: Seq<Token>, p: int, callee: SpecExpr)
    ensures
        expr_rule(toks, p, ExprRule::FinishCall(callee)) matches Parsed::Done { value, next } ==> p <= next
            && expr_pieces(value) =~= rule_pieces(ExprRule::FinishCall(callee)) + pieces_between(toks, p, next),
    decreases toks.len() - p, crate::grammar::expr_rank(ExprRule::FinishCall(callee)), 0nat,
{
    if 0 <= p < toks.len() {
        assert(args_pieces(Seq::<SpecExpr>::empty()) =~= Seq::<Piece>::empty());
        if toks[p].token_type != TokenType::RIGHT_PAREN {
            law_expr_order(toks, p, ExprRule::Arguments(callee, Seq::empty()));
        } else {
            lemma_one(toks, p);
            assert(pieces_between(toks, p, p + 1) =~= Seq::<Piece>::empty());
        }
    }
}

proof fn order_arguments(toks: Seq<Token>, p: int, callee: SpecExpr, args: Seq<SpecExpr>)
    ensures
        expr_rule(toks, p, ExprRule::Arguments(callee, args)) matches Parsed::Done { value, next } ==> p <= next
            && expr_pieces(value) =~= rule_pieces(ExprRule::Arguments(callee, args)) + pieces_between(toks, p, next),
    decreases toks.len() - p, crate::grammar::expr_rank(ExprRule::Arguments(callee, args)), 0nat,
{
    let r = expr_rule(toks, p, ExprRule::Arguments(callee, args));
    if args.len() < 255 {
        law_expr_order(toks, p, ExprRule::Expression);
        if let Parsed::Done { value, next } = expr_rule(toks, p, ExprRule::Expression) {
            if p <= next <= toks.len() {
                lemma_args_push(args, value);
                lemma_one(toks, next);
                lemma_pieces_concat(toks, p, next, next + 1);
                if tok_is(toks, next, TokenType::COMMA) {
                    law_expr_order(
                        toks,
                        next + 1,
                        ExprRule::Arguments(callee, args.push(value)),
                    );
                    if let Parsed::Done { next: q, .. } = r {
                        lemma_pieces_concat(toks, p, next + 1, q);
                    }
                }
            }
        }
    }
}

proof fn order_primary(toks: Seq<Token>, p: int)
    ensures
        expr_rule(toks, p, ExprRule::Primary) matches Parsed::Done { value, next } ==> p <= next
            && expr_pieces(value) =~= rule_pieces(ExprRule::Primary) + pieces_between(toks, p, next),
    decreases toks.len() - p, crate::grammar::expr_rank(ExprRule::Primary), 0nat,
{
    lemma_one(toks, p);
    if tok_is(toks, p, TokenType::LEFT_PAREN) {
        law_expr_order(toks, p + 1, ExprRule::Expression);
        if let Parsed::Done { next, .. } = expr_rule(toks, p + 1, ExprRule::Expression) {
            lemma_one(toks, next);
            lemma_pieces_concat(toks, p, p + 1, next);
            lemma_pieces_concat(toks, p, next, next + 1);
        }
    }
    if tok_is(toks, p, TokenType::SUPER) {
        lemma_one(toks, p + 1);
        lemma_one(toks, p + 2);
        lemma_pieces_concat(toks, p, p + 1, p + 2);
        lemma_pieces_concat(toks, p, p + 2, p + 3);
    }
}

/// An operator token is kept as a name.
proof fn lemma_operator(toks: Seq<Token>, p: int)
    requires
        tok_is(toks, p, TokenType::OR) || tok_is(toks, p, TokenType::AND) || tok_in(
            toks,
            p,
            equality_ops(),
        ) || tok_in(toks, p, comparison_ops()) || tok_in(toks, p, term_ops()) || tok_in(
            toks,
            p,
            factor_ops(),
        ),
    ensures
        pieces_of(toks[p]) =~= seq![Piece::Name(toks[p])],
        tok_is(toks, p, TokenType::OR) ==> op_level(toks[p]) == 2,
        tok_is(toks, p, TokenType::AND) ==> op_level(toks[p]) == 3,
        tok_in(toks, p, equality_ops()) ==> op_level(toks[p]) == 4,
        tok_in(toks, p, comparison_ops()) ==> op_level(toks[p]) == 5,
        tok_in(toks, p, term_ops()) ==> op_level(toks[p]) == 6,
        tok_in(toks, p, factor_ops()) ==> op_level(toks[p]) == 7,
{
    let t = toks[p].token_type;
    if tok_in(toks, p, equality_ops()) {
        let ops = equality_ops();
        let k = choose|k: int| 0 <= k < ops.len() && ops[k] == t;
        if k == 0 {
        } else {
            assert(k == 1);
        }
    } else if tok_in(toks, p, comparison_ops()) {
        let ops = comparison_ops();
        let k = choose|k: int| 0 <= k < ops.len() && ops[k] == t;
        if k == 0 {
        } else if k == 1 {
        } else if k == 2 {
        } else {
            assert(k == 3);
        }
    } else if tok_in(toks, p, term_ops()) {
        let ops = term_ops();
        let k = choose|k: int| 0 <= k < ops.len() && ops[k] == t;
        if k == 0 {
        } else {
            assert(k == 1);
        }
    } else if tok_in(toks, p, factor_ops()) {
        let ops = factor_ops();
        let k = choose|k: int| 0 <= k < ops.len() && ops[k] == t;
        if k == 0 {
        } else {
            assert(k == 1);
        }
    }
}

/// One operator step: the operator at `p` kept, then what was read from
/// `p + 1` to `next`, then from `next` on.
proof fn lemma_step(toks: Seq<Token>, p: int, next: int, q: int)
    requires
        p < next <= q,
    ensures
        pieces_between(toks, p, q) =~= pieces_between(toks, p, p + 1) + pieces_between(toks, p + 1, next)
            + pieces_between(toks, next, q),
{
    lemma_pieces_concat(toks, p, p + 1, next);
    lemma_pieces_concat(toks, p, next, q);
}


// ---------------------------------------------------------------------------
// Precedence and associativity of the expressions read.
// ---------------------------------------------------------------------------
/// How tightly an operator binds: `or` loosest, then `and`, equality,
/// comparison, terms and factors.
pub open spec fn op_level(t: Token) -> int {
    if t.token_type == TokenType::OR {
        2
    } else if t.token_type == TokenType::AND {
        3
    } else if t.token_type == TokenType::BANG_EQUAL || t.token_type == TokenType::EQUAL_EQUAL {
        4
    } else if t.token_type == TokenType::GREATER || t.token_type == TokenType::GREATER_EQUAL
        || t.token_type == TokenType::LESS || t.token_type == TokenType::LESS_EQUAL {
        5
    } else if t.token_type == TokenType::MINUS || t.token_type == TokenType::PLUS {
        6
    } else if t.token_type == TokenType::SLASH || t.token_type == TokenType::STAR {
        7
    } else {
        0
    }
}

/// How tightly the outermost construct of `e` binds: assignments loosest,
/// then the binary operators by `op_level`, then unary operators, and
/// calls, property reads, groupings and atoms tightest.
pub open spec fn level(e: SpecExpr) -> int {
    match e {
        SpecExpr::Binary(_, t, _) => op_level(t),
        SpecExpr::Logical(_, t, _) => op_level(t),
        SpecExpr::Assignment(_, _) => 1,
        SpecExpr::SetField(_, _, _) => 1,
        SpecExpr::Unary(_, _) => 8,
        _ => 9,
    }
}

/// Every node of `e` respects precedence and associativity: the left
/// operand of a binary operator binds at least as tightly as the operator
/// and the right operand strictly more tightly (operators of one level
/// group to the left), the operand of a unary operator is unary or
/// tighter, and what is called or whose property is read is a call or an
/// atom.  Only a grouping resets the level.
pub open spec fn prec_ok(e: SpecExpr) -> bool
    decreases e, 1nat,
{
    match e {
        SpecExpr::Binary(l, t, r) => level(*l) >= op_level(t) && level(*r) > op_level(t)
            && prec_ok(*l) && prec_ok(*r),
        SpecExpr::Logical(l, t, r) => level(*l) >= op_level(t) && level(*r) > op_level(t)
            && prec_ok(*l) && prec_ok(*r),
        SpecExpr::Grouping(x) => prec_ok(*x),
        SpecExpr::Unary(_, x) => level(*x) >= 8 && prec_ok(*x),
        SpecExpr::Assignment(_, x) => prec_ok(*x),
        SpecExpr::Call(c, args) => level(*c) >= 9 && prec_ok(*c) && args_ok(args),
        SpecExpr::Get(x, _) => level(*x) >= 9 && prec_ok(*x),
        SpecExpr::SetField(value, _, object) => level(*object) >= 9 && prec_ok(*object)
            && prec_ok(*value),
        _ => true,
    }
}

/// Every argument respects precedence.
pub open spec fn args_ok(args: Seq<SpecExpr>) -> bool
    decreases args, 0nat,
{
    if args.len() == 0 {
        true
    } else {
        prec_ok(args[0]) && args_ok(args.subrange(1, args.len() as int))
    }
}

/// The loosest construct that a rule reads.
pub open spec fn rule_floor(rule: ExprRule) -> int {
    match rule {
        ExprRule::Expression => 1,
        ExprRule::Assignment => 1,
        ExprRule::Or => 2,
        ExprRule::OrRest(_) => 2,
        ExprRule::And => 3,
        ExprRule::AndRest(_) => 3,
        ExprRule::Equality => 4,
        ExprRule::EqualityRest(_) => 4,
        ExprRule::Comparison => 5,
        ExprRule::ComparisonRest(_) => 5,
        ExprRule::Term => 6,
        ExprRule::TermRest(_) => 6,
        ExprRule::Factor => 7,
        ExprRule::FactorRest(_) => 7,
        ExprRule::Unary => 8,
        _ => 9,
    }
}

/// What a rule has in hand respects precedence and binds at least as
/// tightly as the rule reads.
pub open spec fn rule_ready(rule: ExprRule) -> bool {
    match rule {
        ExprRule::OrRest(l) => prec_ok(l) && level(l) >= 2,
        ExprRule::AndRest(l) => prec_ok(l) && level(l) >= 3,
        ExprRule::EqualityRest(l) => prec_ok(l) && level(l) >= 4,
        ExprRule::ComparisonRest(l) => prec_ok(l) && level(l) >= 5,
        ExprRule::TermRest(l) => prec_ok(l) && level(l) >= 6,
        ExprRule::FactorRest(l) => prec_ok(l) && level(l) >= 7,
        ExprRule::CallRest(c) => prec_ok(c) && level(c) >= 9,
        ExprRule::FinishCall(c) => prec_ok(c) && level(c) >= 9,
        ExprRule::Arguments(c, args) => prec_ok(c) && level(c) >= 9 && args_ok(args),
        _ => true,
    }
}

proof fn lemma_args_ok_push(args: Seq<SpecExpr>, a: SpecExpr)
    ensures
        args_ok(args.push(a)) == (args_ok(args) && prec_ok(a)),
    decreases args.len(),
{
    if args.len() > 0 {
        let rest = args.subrange(1, args.len() as int);
        assert(args.push(a).subrange(1, args.len() as int + 1) =~= rest.push(a));
        assert(args.push(a)[0] == args[0]);
        lemma_args_ok_push(rest, a);
    } else {
        assert(args.push(a).subrange(1, 1) =~= Seq::<SpecExpr>::empty());
        assert(args.push(a)[0] == a);
        assert(args_ok(Seq::<SpecExpr>::empty()));
    }
}

/// Reading an expression respects precedence and associativity: what is
/// read binds as the grammar says (a `*` inside a `+`, never the other way
/// round without parentheses; `a - b - c` as `(a - b) - c`; `-a * b` as
/// `(-a) * b`), and at least as tightly as the rule that read it.
pub proof fn law_expr_precedence(toks: Seq<Token>, p: int, rule: ExprRule)
    requires
        rule_ready(rule),
    ensures
        expr_rule(toks, p, rule) matches Parsed::Done { value, .. } ==> prec_ok(value) && level(
            value,
        ) >= rule_floor(rule),
    decreases toks.len() - p, crate::grammar::expr_rank(rule), 1nat,
{
    match rule {
        ExprRule::Expression => {
            law_expr_precedence(toks, p, ExprRule::Assignment);
        },
        ExprRule::Assignment => {
            prec_assignment(toks, p);
        },
        ExprRule::Or => {
            law_expr_precedence(toks, p, ExprRule::And);
            if let Parsed::Done { value, next } = expr_rule(toks, p, ExprRule::And) {
                if p <= next <= toks.len() {
                    law_expr_precedence(toks, next, ExprRule::OrRest(value));
                }
            }
        },
        ExprRule::And => {
            law_expr_precedence(toks, p, ExprRule::Equality);
            if let Parsed::Done { value, next } = expr_rule(toks, p, ExprRule::Equality) {
                if p <= next <= toks.len() {
                    law_expr_precedence(toks, next, ExprRule::AndRest(value));
                }
            }
        },
        ExprRule::Equality => {
            law_expr_precedence(toks, p, ExprRule::Comparison);
            if let Parsed::Done { value, next } = expr_rule(toks, p, ExprRule::Comparison) {
                if p <= next <= toks.len() {
                    law_expr_precedence(toks, next, ExprRule::EqualityRest(value));
                }
            }
        },
        ExprRule::Comparison => {
            law_expr_precedence(toks, p, ExprRule::Term);
            if let Parsed::Done { value, next } = expr_rule(toks, p, ExprRule::Term) {
                if p <= next <= toks.len() {
                    law_expr_precedence(toks, next, ExprRule::ComparisonRest(value));
                }
            }
        },
        ExprRule::Term => {
            law_expr_precedence(toks, p, ExprRule::Factor);
            if let Parsed::Done { value, next } = expr_rule(toks, p, ExprRule::Factor) {
                if p <= next <= toks.len() {
                    law_expr_precedence(toks, next, ExprRule::TermRest(value));
                }
            }
        },
        ExprRule::Factor => {
            law_expr_precedence(toks, p, ExprRule::Unary);
            if let Parsed::Done { value, next } = expr_rule(toks, p, ExprRule::Unary) {
                if p <= next <= toks.len() {
                    law_expr_precedence(toks, next, ExprRule::FactorRest(value));
                }
            }
        },
        ExprRule::Call => {
            law_expr_precedence(toks, p, ExprRule::Primary);
            if let Parsed::Done { value, next } = expr_rule(toks, p, ExprRule::Primary) {
                if p <= next <= toks.len() {
                    law_expr_precedence(toks, next, ExprRule::CallRest(value));
                }
            }
        },
        ExprRule::OrRest(left) => {
            prec_or_rest(toks, p, left);
        },
        ExprRule::AndRest(left) => {
            prec_and_rest(toks, p, left);
        },
        ExprRule::EqualityRest(left) => {
            prec_equality_rest(toks, p, left);
        },
        ExprRule::ComparisonRest(left) => {
            prec_comparison_rest(toks, p, left);
        },
        ExprRule::TermRest(left) => {
            prec_term_rest(toks, p, left);
        },
        ExprRule::FactorRest(left) => {
            prec_factor_rest(toks, p, left);
        },
        ExprRule::Unary => {
            if tok_in(toks, p, unary_ops()) {
                law_expr_precedence(toks, p + 1, ExprRule::Unary);
            } else {
                law_expr_precedence(toks, p, ExprRule::Call);
            }
        },
        ExprRule::CallRest(e) => {
            prec_call_rest(toks, p, e);
        },
        ExprRule::FinishCall(callee) => {
            assert(args_ok(Seq::<SpecExpr>::empty()));
            if 0 <= p < toks.len() && toks[p].token_type != TokenType::RIGHT_PAREN {
                law_expr_precedence(toks, p, ExprRule::Arguments(callee, Seq::empty()));
            }
        },
        ExprRule::Arguments(callee, args) => {
            prec_arguments(toks, p, callee, args);
        },
        ExprRule::Primary => {
            if tok_is(toks, p, TokenType::LEFT_PAREN) {
                law_expr_precedence(toks, p + 1, ExprRule::Expression);
            }
        },
    }
}

// The steps of `law_expr_precedence` that need more than a call or two.
proof fn prec_assignment(toks: Seq<Token>, p: int)
    ensures
        expr_rule(toks, p, ExprRule::Assignment) matches Parsed::Done { value, .. } ==> prec_ok(
            value,
        ) && level(value) >= 1,
    decreases toks.len() - p, crate::grammar::expr_rank(ExprRule::Assignment), 0nat,
{
    law_expr_precedence(toks, p, ExprRule::Or);
    if let Parsed::Done { value: expr, next: p1 } = expr_rule(toks, p, ExprRule::Or) {
        if tok_is(toks, p1, TokenType::EQUAL) && p <= p1 {
            law_expr_precedence(toks, p1 + 1, ExprRule::Assignment);
        }
    }
}

proof fn prec_or_rest(toks: Seq<Token>, p: int, left: SpecExpr)
    requires
        rule_ready(ExprRule::OrRest(left)),
    ensures
        expr_rule(toks, p, ExprRule::OrRest(left)) matches Parsed::Done { value, .. } ==> prec_ok(
            value,
        ) && level(value) >= rule_floor(ExprRule::OrRest(left)),
    decreases toks.len() - p, crate::grammar::expr_rank(ExprRule::OrRest(left)), 0nat,
{
    if tok_is(toks, p, TokenType::OR) {
        law_expr_precedence(toks, p + 1, ExprRule::And);
        if let Parsed::Done { value: right, next } = expr_rule(toks, p + 1, ExprRule::And) {
            if p < next <= toks.len() {
                lemma_operator(toks, p);
                let l2 = SpecExpr::Logical(Box::new(left), toks[p], Box::new(right));
                assert(prec_ok(l2));
                law_expr_precedence(toks, next, ExprRule::OrRest(l2));
            }
        }
    }
}

proof fn prec_and_rest(toks: Seq<Token>, p: int, left: SpecExpr)
    requires
        rule_ready(ExprRule::AndRest(left)),
    ensures
        expr_rule(toks, p, ExprRule::AndRest(left)) matches Parsed::Done { value, .. } ==> prec_ok(
            value,
        ) && level(value) >= rule_floor(ExprRule::AndRest(left)),
    decreases toks.len() - p, crate::grammar::expr_rank(ExprRule::AndRest(left)), 0nat,
{
    if tok_is(toks, p, TokenType::AND) {
        law_expr_precedence(toks, p + 1, ExprRule::Equality);
        if let Parsed::Done { value: right, next } = expr_rule(toks, p + 1, ExprRule::Equality) {
            if p < next <= toks.len() {
                lemma_operator(toks, p);
                let l2 = SpecExpr::Logical(Box::new(left), toks[p], Box::new(right));
                assert(prec_ok(l2));
                law_expr_precedence(toks, next, ExprRule::AndRest(l2));
            }
        }
    }
}

proof fn prec_equality_rest(toks: Seq<Token>, p: int, left: SpecExpr)
    requires
        rule_ready(ExprRule::EqualityRest(left)),
    ensures
        expr_rule(toks, p, ExprRule::EqualityRest(left)) matches Parsed::Done { value, .. } ==> prec_ok(
            value,
        ) && level(value) >= rule_floor(ExprRule::EqualityRest(left)),
    decreases toks.len() - p, crate::grammar::expr_rank(ExprRule::EqualityRest(left)), 0nat,
{
    if tok_in(toks, p, equality_ops()) {
        law_expr_precedence(toks, p + 1, ExprRule::Comparison);
        if let Parsed::Done { value: right, next } = expr_rule(toks, p + 1, ExprRule::Comparison) {
            if p < next <= toks.len() {
                lemma_operator(toks, p);
                let l2 = SpecExpr::Binary(Box::new(left), toks[p], Box::new(right));
                assert(prec_ok(l2));
                law_expr_precedence(toks, next, ExprRule::EqualityRest(l2));
            }
        }
    }
}

proof fn prec_comparison_rest(toks: Seq<Token>, p: int, left: SpecExpr)
    requires
        rule_ready(ExprRule::ComparisonRest(left)),
    ensures
        expr_rule(toks, p, ExprRule::ComparisonRest(left)) matches Parsed::Done { value, .. } ==> prec_ok(
            value,
        ) && level(value) >= rule_floor(ExprRule::ComparisonRest(left)),
    decreases toks.len() - p, crate::grammar::expr_rank(ExprRule::ComparisonRest(left)), 0nat,
{
    if tok_in(toks, p, comparison_ops()) {
        law_expr_precedence(toks, p + 1, ExprRule::Term);
        if let Parsed::Done { value: right, next } = expr_rule(toks, p + 1, ExprRule::Term) {
            if p < next <= toks.len() {
                lemma_operator(toks, p);
                let l2 = SpecExpr::Binary(Box::new(left), toks[p], Box::new(right));
                assert(prec_ok(l2));
                law_expr_precedence(toks, next, ExprRule::ComparisonRest(l2));
            }
        }
    }
}

proof fn prec_term_rest(toks: Seq<Token>, p: int, left: SpecExpr)
    requires
        rule_ready(ExprRule::TermRest(left)),
    ensures
        expr_rule(toks, p, ExprRule::TermRest(left)) matches Parsed::Done { value, .. } ==> prec_ok(
            value,
        ) && level(value) >= rule_floor(ExprRule::TermRest(left)),
    decreases toks.len() - p, crate::grammar::expr_rank(ExprRule::TermRest(left)), 0nat,
{
    if tok_in(toks, p, term_ops()) {
        law_expr_precedence(toks, p + 1, ExprRule::Factor);
        if let Parsed::Done { value: right, next } = expr_rule(toks, p + 1, ExprRule::Factor) {
            if p < next <= toks.len() {
                lemma_operator(toks, p);
                let l2 = SpecExpr::Binary(Box::new(left), toks[p], Box::new(right));
                assert(prec_ok(l2));
                law_expr_precedence(toks, next, ExprRule::TermRest(l2));
            }
        }
    }
}

proof fn prec_factor_rest(toks: Seq<Token>, p: int, left: SpecExpr)
    requires
        rule_ready(ExprRule::FactorRest(left)),
    ensures
        expr_rule(toks, p, ExprRule::FactorRest(left)) matches Parsed::Done { value, .. } ==> prec_ok(
            value,
        ) && level(value) >= rule_floor(ExprRule::FactorRest(left)),
    decreases toks.len() - p, crate::grammar::expr_rank(ExprRule::FactorRest(left)), 0nat,
{
    if tok_in(toks, p, factor_ops()) {
        law_expr_precedence(toks, p + 1, ExprRule::Unary);
        if let Parsed::Done { value: right, next } = expr_rule(toks, p + 1, ExprRule::Unary) {
            if p < next <= toks.len() {
                lemma_operator(toks, p);
                let l2 = SpecExpr::Binary(Box::new(left), toks[p], Box::new(right));
                assert(prec_ok(l2));
                law_expr_precedence(toks, next, ExprRule::FactorRest(l2));
            }
        }
    }
}

proof fn prec_call_rest(toks: Seq<Token>, p: int, e: SpecExpr)
    requires
        rule_ready(ExprRule::CallRest(e)),
    ensures
        expr_rule(toks, p, ExprRule::CallRest(e)) matches Parsed::Done { value, .. } ==> prec_ok(
            value,
        ) && level(value) >= 9,
    decreases toks.len() - p, crate::grammar::expr_rank(ExprRule::CallRest(e)), 0nat,
{
    if tok_is(toks, p, TokenType::LEFT_PAREN) {
        law_expr_precedence(toks, p + 1, ExprRule::FinishCall(e));
        if let Parsed::Done { value, next } = expr_rule(toks, p + 1, ExprRule::FinishCall(e)) {
            if p < next <= toks.len() {
                law_expr_precedence(toks, next, ExprRule::CallRest(value));
            }
        }
    } else if tok_is(toks, p, TokenType::DOT) && tok_is(toks, p + 1, TokenType::IDENTIFIER) {
        let g = SpecExpr::Get(Box::new(e), toks[p + 1]);
        assert(prec_ok(g));
        law_expr_precedence(toks, p + 2, ExprRule::CallRest(g));
    }
}

proof fn prec_arguments(toks: Seq<Token>, p: int, callee: SpecExpr, args: Seq<SpecExpr>)
    requires
        rule_ready(ExprRule::Arguments(callee, args)),
    ensures
        expr_rule(toks, p, ExprRule::Arguments(callee, args)) matches Parsed::Done { value, .. }
            ==> prec_ok(value) && level(value) >= 9,
    decreases toks.len() - p, crate::grammar::expr_rank(ExprRule::Arguments(callee, args)), 0nat,
{
    if args.len() < 255 {
        law_expr_precedence(toks, p, ExprRule::Expression);
        if let Parsed::Done { value, next } = expr_rule(toks, p, ExprRule::Expression) {
            if p <= next <= toks.len() {
                lemma_args_ok_push(args, value);
                if tok_is(toks, next, TokenType::COMMA) {
                    law_expr_precedence(toks, next + 1, ExprRule::Arguments(callee, args.push(value)));
                }
            }
        }
    }
}

} // verus!
