use vstd::prelude::*;

use crate::expressions::{SpecExpr, Var};
use crate::lox_error::SpecLoxError;
use crate::statements::SpecStmt;
use crate::text::decimal;
use crate::tokens::{Object, Token, TokenType};

verus! {

// ---------------------------------------------------------------------------
// The grammar of Lox, as a recursive-descent reading of a token sequence.
//
// Each `*_at` function reads one construct starting at position `p` of
// `toks` and says how the reading ends: with a value and the position after
// it, with an error and the position where reading stopped, or by aborting
// (the reading cannot go on at all: a token that must be there is missing).
// ---------------------------------------------------------------------------
/// How reading a construct ends.
pub enum Parsed<T> {
    /// The construct was read; reading goes on at `next`.
    Done { value: T, next: int },
    /// The construct is in error; reading stopped at `at`.
    Failed { error: SpecLoxError, at: int },
    /// Reading cannot go on.
    Aborted { message: Seq<char> },
}

pub open spec fn tok_is(toks: Seq<Token>, p: int, t: TokenType) -> bool {
    0 <= p < toks.len() && toks[p].token_type == t
}

pub open spec fn tok_in(toks: Seq<Token>, p: int, kinds: Seq<TokenType>) -> bool {
    0 <= p < toks.len() && kinds.contains(toks[p].token_type)
}

/// The message of a missing value.
pub open spec fn unwrap_message() -> Seq<char> {
    "called `Option::unwrap()` on a `None` value"@
}

/// The message of a token that no rule expects after an error.
pub open spec fn unreachable_message() -> Seq<char> {
    "internal error: entered unreachable code"@
}

/// The message of a position past the last token.
pub open spec fn index_message(len: nat, index: nat) -> Seq<char> {
    "index out of bounds: the len is "@ + decimal(len) + " but the index is "@ + decimal(index)
}

pub open spec fn sync_error() -> SpecLoxError {
    SpecLoxError::Error("Sync"@)
}

pub open spec fn too_many_params_error() -> SpecLoxError {
    SpecLoxError::Error("Can't have more than 255 parameters"@)
}

pub open spec fn too_many_args_error() -> SpecLoxError {
    SpecLoxError::Error("Can't have more than \n                    255 arguments."@)
}

pub open spec fn invalid_target_error() -> SpecLoxError {
    SpecLoxError::ParsingError("Invalid assignment target."@)
}

/// The token of kind `t` at `p`, or an abort with `msg`.
pub open spec fn consume_at(toks: Seq<Token>, p: int, t: TokenType, msg: Seq<char>) -> Parsed<
    Token,
> {
    if tok_is(toks, p, t) {
        Parsed::Done { value: toks[p], next: p + 1 }
    } else {
        Parsed::Aborted { message: msg }
    }
}

/// The token kinds that error recovery steps over.
pub open spec fn is_sync_keyword(t: TokenType) -> bool {
    ||| t == TokenType::CLASS
    ||| t == TokenType::FUN
    ||| t == TokenType::VAR
    ||| t == TokenType::FOR
    ||| t == TokenType::IF
    ||| t == TokenType::WHILE
    ||| t == TokenType::PRINT
    ||| t == TokenType::RETURN
}

pub open spec fn unresolved(t: Token) -> Var {
    Var { identifier: t, hops: 0 }
}

// ----------------------------- expressions --------------------------------
/// The rules of the expression grammar.  A `*Rest` rule reads the operators
/// and operands that follow a left operand that has been read.
pub enum ExprRule {
    Expression,
    Assignment,
    Or,
    OrRest(SpecExpr),
    And,
    AndRest(SpecExpr),
    Equality,
    EqualityRest(SpecExpr),
    Comparison,
    ComparisonRest(SpecExpr),
    Term,
    TermRest(SpecExpr),
    Factor,
    FactorRest(SpecExpr),
    Unary,
    Call,
    CallRest(SpecExpr),
    /// The arguments of a call whose `(` has been read, and its `)`.
    FinishCall(SpecExpr),
    /// The arguments from the next one on, after those read so far.
    Arguments(SpecExpr, Seq<SpecExpr>),
    Primary,
}

/// The order of the rules: a rule reads at a position only by rules of lower
/// rank at that position.
pub open spec fn expr_rank(rule: ExprRule) -> nat {
    match rule {
        ExprRule::FinishCall(_) => 300,
        ExprRule::Arguments(_, _) => 290,
        ExprRule::Expression => 200,
        ExprRule::Assignment => 190,
        ExprRule::Or => 180,
        ExprRule::OrRest(_) => 175,
        ExprRule::And => 170,
        ExprRule::AndRest(_) => 165,
        ExprRule::Equality => 160,
        ExprRule::EqualityRest(_) => 155,
        ExprRule::Comparison => 150,
        ExprRule::ComparisonRest(_) => 145,
        ExprRule::Term => 140,
        ExprRule::TermRest(_) => 135,
        ExprRule::Factor => 130,
        ExprRule::FactorRest(_) => 125,
        ExprRule::Unary => 120,
        ExprRule::Call => 110,
        ExprRule::CallRest(_) => 105,
        ExprRule::Primary => 90,
    }
}

pub open spec fn equality_ops() -> Seq<TokenType> {
    seq![TokenType::BANG_EQUAL, TokenType::EQUAL_EQUAL]
}

pub open spec fn comparison_ops() -> Seq<TokenType> {
    seq![TokenType::GREATER, TokenType::GREATER_EQUAL, TokenType::LESS, TokenType::LESS_EQUAL]
}

pub open spec fn term_ops() -> Seq<TokenType> {
    seq![TokenType::MINUS, TokenType::PLUS]
}

pub open spec fn factor_ops() -> Seq<TokenType> {
    seq![TokenType::SLASH, TokenType::STAR]
}

pub open spec fn unary_ops() -> Seq<TokenType> {
    seq![TokenType::BANG, TokenType::MINUS]
}

pub open spec fn literal_ops() -> Seq<TokenType> {
    seq![TokenType::NUMBER, TokenType::STRING]
}

/// The assignment to `target` of the value read by `value`.
pub open spec fn assign_to(target: SpecExpr, value: Parsed<SpecExpr>) -> Parsed<SpecExpr> {
    match value {
        Parsed::Done { value: val, next } => if target is Variable {
            Parsed::Done { value: SpecExpr::Assignment(target->Variable_0, Box::new(val)), next }
        } else if target is Get {
            Parsed::Done {
                value: SpecExpr::SetField(Box::new(val), target->Get_1, target->Get_0),
                next,
            }
        } else {
            Parsed::Failed { error: invalid_target_error(), at: next }
        },
        other => other,
    }
}

/// Reading by `rule` from position `p`.
pub open spec fn expr_rule(toks: Seq<Token>, p: int, rule: ExprRule) -> Parsed<SpecExpr>
    decreases toks.len() - p, expr_rank(rule),
{
    match rule {
        ExprRule::Expression => expr_rule(toks, p, ExprRule::Assignment),
        ExprRule::Assignment => match expr_rule(toks, p, ExprRule::Or) {
            Parsed::Done { value: expr, next: p1 } => {
                if tok_is(toks, p1, TokenType::EQUAL) {
                    if p <= p1 {
                        assign_to(expr, expr_rule(toks, p1 + 1, ExprRule::Assignment))
                    } else {
                        Parsed::Aborted { message: Seq::empty() }
                    }
                } else {
                    Parsed::Done { value: expr, next: p1 }
                }
            },
            other => other,
        },
        ExprRule::Or => match expr_rule(toks, p, ExprRule::And) {
            Parsed::Done { value, next } => if p <= next <= toks.len() {
                expr_rule(toks, next, ExprRule::OrRest(value))
            } else {
                Parsed::Aborted { message: Seq::empty() }
            },
            other => other,
        },
        ExprRule::OrRest(left) => if tok_is(toks, p, TokenType::OR) {
            match expr_rule(toks, p + 1, ExprRule::And) {
                Parsed::Done { value: right, next } => if p < next <= toks.len() {
                    expr_rule(
                        toks,
                        next,
                        ExprRule::OrRest(SpecExpr::Logical(Box::new(left), toks[p], Box::new(right))),
                    )
                } else {
                    Parsed::Aborted { message: Seq::empty() }
                },
                other => other,
            }
        } else {
            Parsed::Done { value: left, next: p }
        },
        ExprRule::And => match expr_rule(toks, p, ExprRule::Equality) {
            Parsed::Done { value, next } => if p <= next <= toks.len() {
                expr_rule(toks, next, ExprRule::AndRest(value))
            } else {
                Parsed::Aborted { message: Seq::empty() }
            },
            other => other,
        },
        ExprRule::AndRest(left) => if tok_is(toks, p, TokenType::AND) {
            match expr_rule(toks, p + 1, ExprRule::Equality) {
                Parsed::Done { value: right, next } => if p < next <= toks.len() {
                    expr_rule(
                        toks,
                        next,
                        ExprRule::AndRest(
                            SpecExpr::Logical(Box::new(left), toks[p], Box::new(right)),
                        ),
                    )
                } else {
                    Parsed::Aborted { message: Seq::empty() }
                },
                other => other,
            }
        } else {
            Parsed::Done { value: left, next: p }
        },
        ExprRule::Equality => match expr_rule(toks, p, ExprRule::Comparison) {
            Parsed::Done { value, next } => if p <= next <= toks.len() {
                expr_rule(toks, next, ExprRule::EqualityRest(value))
            } else {
                Parsed::Aborted { message: Seq::empty() }
            },
            other => other,
        },
        ExprRule::EqualityRest(left) => if tok_in(toks, p, equality_ops()) {
            match expr_rule(toks, p + 1, ExprRule::Comparison) {
                Parsed::Done { value: right, next } => if p < next <= toks.len() {
                    expr_rule(
                        toks,
                        next,
                        ExprRule::EqualityRest(
                            SpecExpr::Binary(Box::new(left), toks[p], Box::new(right)),
                        ),
                    )
                } else {
                    Parsed::Aborted { message: Seq::empty() }
                },
                other => other,
            }
        } else {
            Parsed::Done { value: left, next: p }
        },
        ExprRule::Comparison => match expr_rule(toks, p, ExprRule::Term) {
            Parsed::Done { value, next } => if p <= next <= toks.len() {
                expr_rule(toks, next, ExprRule::ComparisonRest(value))
            } else {
                Parsed::Aborted { message: Seq::empty() }
            },
            other => other,
        },
        ExprRule::ComparisonRest(left) => if tok_in(toks, p, comparison_ops()) {
            match expr_rule(toks, p + 1, ExprRule::Term) {
                Parsed::Done { value: right, next } => if p < next <= toks.len() {
                    expr_rule(
                        toks,
                        next,
                        ExprRule::ComparisonRest(
                            SpecExpr::Binary(Box::new(left), toks[p], Box::new(right)),
                        ),
                    )
                } else {
                    Parsed::Aborted { message: Seq::empty() }
                },
                other => other,
            }
        } else {
            Parsed::Done { value: left, next: p }
        },
        ExprRule::Term => match expr_rule(toks, p, ExprRule::Factor) {
            Parsed::Done { value, next } => if p <= next <= toks.len() {
                expr_rule(toks, next, ExprRule::TermRest(value))
            } else {
                Parsed::Aborted { message: Seq::empty() }
            },
            other => other,
        },
        ExprRule::TermRest(left) => if tok_in(toks, p, term_ops()) {
            match expr_rule(toks, p + 1, ExprRule::Factor) {
                Parsed::Done { value: right, next } => if p < next <= toks.len() {
                    expr_rule(
                        toks,
                        next,
                        ExprRule::TermRest(
                            SpecExpr::Binary(Box::new(left), toks[p], Box::new(right)),
                        ),
                    )
                } else {
                    Parsed::Aborted { message: Seq::empty() }
                },
                other => other,
            }
        } else {
            Parsed::Done { value: left, next: p }
        },
        ExprRule::Factor => match expr_rule(toks, p, ExprRule::Unary) {
            Parsed::Done { value, next } => if p <= next <= toks.len() {
                expr_rule(toks, next, ExprRule::FactorRest(value))
            } else {
                Parsed::Aborted { message: Seq::empty() }
            },
            other => other,
        },
        ExprRule::FactorRest(left) => if tok_in(toks, p, factor_ops()) {
            match expr_rule(toks, p + 1, ExprRule::Unary) {
                Parsed::Done { value: right, next } => if p < next <= toks.len() {
                    expr_rule(
                        toks,
                        next,
                        ExprRule::FactorRest(
                            SpecExpr::Binary(Box::new(left), toks[p], Box::new(right)),
                        ),
                    )
                } else {
                    Parsed::Aborted { message: Seq::empty() }
                },
                other => other,
            }
        } else {
            Parsed::Done { value: left, next: p }
        },
        ExprRule::Unary => if tok_in(toks, p, unary_ops()) {
            match expr_rule(toks, p + 1, ExprRule::Unary) {
                Parsed::Done { value: right, next } => Parsed::Done {
                    value: SpecExpr::Unary(toks[p], Box::new(right)),
                    next,
                },
                other => other,
            }
        } else {
            expr_rule(toks, p, ExprRule::Call)
        },
        ExprRule::Call => match expr_rule(toks, p, ExprRule::Primary) {
            Parsed::Done { value, next } => if p <= next <= toks.len() {
                expr_rule(toks, next, ExprRule::CallRest(value))
            } else {
                Parsed::Aborted { message: Seq::empty() }
            },
            other => other,
        },
        ExprRule::CallRest(e) => if tok_is(toks, p, TokenType::LEFT_PAREN) {
            match expr_rule(toks, p + 1, ExprRule::FinishCall(e)) {
                Parsed::Done { value, next } => if p < next <= toks.len() {
                    expr_rule(toks, next, ExprRule::CallRest(value))
                } else {
                    Parsed::Aborted { message: Seq::empty() }
                },
                other => other,
            }
        } else if tok_is(toks, p, TokenType::DOT) {
            if tok_is(toks, p + 1, TokenType::IDENTIFIER) {
                expr_rule(toks, p + 2, ExprRule::CallRest(SpecExpr::Get(Box::new(e), toks[p + 1])))
            } else {
                Parsed::Aborted { message: "Expect property name after '.'."@ }
            }
        } else {
            Parsed::Done { value: e, next: p }
        },
        ExprRule::FinishCall(callee) => if !(0 <= p < toks.len()) {
            Parsed::Aborted { message: unwrap_message() }
        } else if toks[p].token_type != TokenType::RIGHT_PAREN {
            expr_rule(toks, p, ExprRule::Arguments(callee, Seq::empty()))
        } else {
            Parsed::Done { value: SpecExpr::Call(Box::new(callee), Seq::empty()), next: p + 1 }
        },
        ExprRule::Arguments(callee, args) => if args.len() >= 255 {
            Parsed::Failed { error: too_many_args_error(), at: p }
        } else {
            match expr_rule(toks, p, ExprRule::Expression) {
                Parsed::Done { value, next } => if p <= next <= toks.len() {
                    if tok_is(toks, next, TokenType::COMMA) {
                        expr_rule(toks, next + 1, ExprRule::Arguments(callee, args.push(value)))
                    } else if tok_is(toks, next, TokenType::RIGHT_PAREN) {
                        Parsed::Done {
                            value: SpecExpr::Call(Box::new(callee), args.push(value)),
                            next: next + 1,
                        }
                    } else {
                        Parsed::Aborted { message: "Expect ')' after arguments"@ }
                    }
                } else {
                    Parsed::Aborted { message: Seq::empty() }
                },
                other => other,
            }
        },
        ExprRule::Primary => if tok_is(toks, p, TokenType::FALSE) {
            Parsed::Done { value: SpecExpr::Literal(Object::False), next: p + 1 }
        } else if tok_is(toks, p, TokenType::TRUE) {
            Parsed::Done { value: SpecExpr::Literal(Object::True), next: p + 1 }
        } else if tok_is(toks, p, TokenType::NIL) {
            Parsed::Done { value: SpecExpr::Literal(Object::Nil), next: p + 1 }
        } else if tok_in(toks, p, literal_ops()) {
            match toks[p].literal {
                Some(o) => Parsed::Done { value: SpecExpr::Literal(o), next: p + 1 },
                None => Parsed::Aborted { message: unwrap_message() },
            }
        } else if tok_is(toks, p, TokenType::LEFT_PAREN) {
            match expr_rule(toks, p + 1, ExprRule::Expression) {
                Parsed::Done { value, next } => if tok_is(toks, next, TokenType::RIGHT_PAREN) {
                    Parsed::Done { value: SpecExpr::Grouping(Box::new(value)), next: next + 1 }
                } else {
                    Parsed::Aborted { message: "Expect ')' after expression."@ }
                },
                other => other,
            }
        } else if tok_is(toks, p, TokenType::IDENTIFIER) {
            Parsed::Done { value: SpecExpr::Variable(unresolved(toks[p])), next: p + 1 }
        } else if tok_is(toks, p, TokenType::THIS) {
            Parsed::Done { value: SpecExpr::This(unresolved(toks[p])), next: p + 1 }
        } else if tok_is(toks, p, TokenType::SUPER) {
            if !tok_is(toks, p + 1, TokenType::DOT) {
                Parsed::Aborted { message: "Expect '.' after 'super'."@ }
            } else if !tok_is(toks, p + 2, TokenType::IDENTIFIER) {
                Parsed::Aborted { message: "Expect superclass method name."@ }
            } else {
                Parsed::Done {
                    value: SpecExpr::Super(unresolved(toks[p]), toks[p + 2]),
                    next: p + 3,
                }
            }
        } else {
            Parsed::Failed { error: SpecLoxError::NotExpression, at: p }
        },
    }
}

pub open spec fn expression_at(toks: Seq<Token>, p: int) -> Parsed<SpecExpr> {
    expr_rule(toks, p, ExprRule::Expression)
}

pub open spec fn assignment_at(toks: Seq<Token>, p: int) -> Parsed<SpecExpr> {
    expr_rule(toks, p, ExprRule::Assignment)
}

pub open spec fn or_at(toks: Seq<Token>, p: int) -> Parsed<SpecExpr> {
    expr_rule(toks, p, ExprRule::Or)
}

pub open spec fn or_rest(toks: Seq<Token>, p: int, left: SpecExpr) -> Parsed<SpecExpr> {
    expr_rule(toks, p, ExprRule::OrRest(left))
}

pub open spec fn and_at(toks: Seq<Token>, p: int) -> Parsed<SpecExpr> {
    expr_rule(toks, p, ExprRule::And)
}

pub open spec fn and_rest(toks: Seq<Token>, p: int, left: SpecExpr) -> Parsed<SpecExpr> {
    expr_rule(toks, p, ExprRule::AndRest(left))
}

pub open spec fn equality_at(toks: Seq<Token>, p: int) -> Parsed<SpecExpr> {
    expr_rule(toks, p, ExprRule::Equality)
}

pub open spec fn equality_rest(toks: Seq<Token>, p: int, left: SpecExpr) -> Parsed<SpecExpr> {
    expr_rule(toks, p, ExprRule::EqualityRest(left))
}

pub open spec fn comparison_at(toks: Seq<Token>, p: int) -> Parsed<SpecExpr> {
    expr_rule(toks, p, ExprRule::Comparison)
}

pub open spec fn comparison_rest(toks: Seq<Token>, p: int, left: SpecExpr) -> Parsed<SpecExpr> {
    expr_rule(toks, p, ExprRule::ComparisonRest(left))
}

pub open spec fn term_at(toks: Seq<Token>, p: int) -> Parsed<SpecExpr> {
    expr_rule(toks, p, ExprRule::Term)
}

pub open spec fn term_rest(toks: Seq<Token>, p: int, left: SpecExpr) -> Parsed<SpecExpr> {
    expr_rule(toks, p, ExprRule::TermRest(left))
}

pub open spec fn factor_at(toks: Seq<Token>, p: int) -> Parsed<SpecExpr> {
    expr_rule(toks, p, ExprRule::Factor)
}

pub open spec fn factor_rest(toks: Seq<Token>, p: int, left: SpecExpr) -> Parsed<SpecExpr> {
    expr_rule(toks, p, ExprRule::FactorRest(left))
}

pub open spec fn unary_at(toks: Seq<Token>, p: int) -> Parsed<SpecExpr> {
    expr_rule(toks, p, ExprRule::Unary)
}

pub open spec fn call_at(toks: Seq<Token>, p: int) -> Parsed<SpecExpr> {
    expr_rule(toks, p, ExprRule::Call)
}

pub open spec fn call_rest(toks: Seq<Token>, p: int, e: SpecExpr) -> Parsed<SpecExpr> {
    expr_rule(toks, p, ExprRule::CallRest(e))
}

pub open spec fn finish_call_at(toks: Seq<Token>, p: int, callee: SpecExpr) -> Parsed<SpecExpr> {
    expr_rule(toks, p, ExprRule::FinishCall(callee))
}

pub open spec fn arguments_at(
    toks: Seq<Token>,
    p: int,
    callee: SpecExpr,
    args: Seq<SpecExpr>,
) -> Parsed<SpecExpr> {
    expr_rule(toks, p, ExprRule::Arguments(callee, args))
}

pub open spec fn primary_at(toks: Seq<Token>, p: int) -> Parsed<SpecExpr> {
    expr_rule(toks, p, ExprRule::Primary)
}

// ----------------------------- statements ---------------------------------
/// A whole program from position `p`: declarations up to the end-of-file token.
pub open spec fn program_at(toks: Seq<Token>, p: int, acc: Seq<SpecStmt>) -> Parsed<Seq<SpecStmt>>
    decreases toks.len() - p,
{
    if !(0 <= p < toks.len()) {
        Parsed::Done { value: acc, next: p }
    } else if toks[p].token_type == TokenType::EOF {
        Parsed::Done { value: acc, next: p + 1 }
    } else {
        match declaration_at(toks, p) {
            Parsed::Done { value, next } => if p < next <= toks.len() {
                program_at(toks, next, acc.push(value))
            } else {
                Parsed::Aborted { message: Seq::empty() }
            },
            Parsed::Failed { error, at } => Parsed::Failed { error, at },
            Parsed::Aborted { message } => Parsed::Aborted { message },
        }
    }
}

/// Error recovery from position `p`: it always ends in an error.
pub open spec fn synchronize_at(toks: Seq<Token>, p: int) -> Parsed<SpecStmt> {
    if !(0 <= p < toks.len()) {
        Parsed::Failed { error: SpecLoxError::TokenListEmpty, at: p }
    } else {
        synchronize_rest(toks, p + 1)
    }
}

pub open spec fn synchronize_rest(toks: Seq<Token>, p: int) -> Parsed<SpecStmt>
    decreases toks.len() - p,
{
    if !(1 <= p < toks.len()) {
        Parsed::Failed { error: sync_error(), at: p }
    } else if toks[p - 1].token_type == TokenType::SEMICOLON {
        Parsed::Failed { error: sync_error(), at: p }
    } else if is_sync_keyword(toks[p].token_type) {
        synchronize_rest(toks, p + 1)
    } else {
        Parsed::Aborted { message: unreachable_message() }
    }
}

/// The parameter names of a function, from the first one on.
pub open spec fn parameters_at(toks: Seq<Token>, p: int, params: Seq<Token>) -> Parsed<
    Seq<Token>,
>
    decreases toks.len() - p,
{
    if params.len() >= 255 {
        Parsed::Failed { error: too_many_params_error(), at: p }
    } else if !tok_is(toks, p, TokenType::IDENTIFIER) {
        Parsed::Aborted { message: "Expect parameter name."@ }
    } else if tok_is(toks, p + 1, TokenType::COMMA) {
        parameters_at(toks, p + 2, params.push(toks[p]))
    } else {
        Parsed::Done { value: params.push(toks[p]), next: p + 1 }
    }
}

/// A variable declaration whose `var` has been read.
pub open spec fn var_declaration_at(toks: Seq<Token>, p: int) -> Parsed<SpecStmt> {
    if !tok_is(toks, p, TokenType::IDENTIFIER) {
        Parsed::Aborted { message: "Expect variable name."@ }
    } else {
        let init = if tok_is(toks, p + 1, TokenType::EQUAL) {
            expression_at(toks, p + 2)
        } else {
            Parsed::Done { value: SpecExpr::Literal(Object::Nil), next: p + 1 }
        };
        match init {
            Parsed::Done { value, next } => if tok_is(toks, next, TokenType::SEMICOLON) {
                Parsed::Done { value: SpecStmt::VarDecl(toks[p], value), next: next + 1 }
            } else {
                Parsed::Aborted { message: "Expecct ';' after variable declaration."@ }
            },
            Parsed::Failed { error, at } => Parsed::Failed { error, at },
            Parsed::Aborted { message } => Parsed::Aborted { message },
        }
    }
}

/// The initializer clause of a `for`, from the token after `(`.
pub open spec fn for_initializer_at(toks: Seq<Token>, p: int) -> Parsed<Option<SpecStmt>> {
    if tok_is(toks, p, TokenType::SEMICOLON) {
        Parsed::Done { value: None, next: p + 1 }
    } else {
        match if tok_is(toks, p, TokenType::VAR) {
            var_declaration_at(toks, p + 1)
        } else {
            expression_statement_at(toks, p)
        } {
            Parsed::Done { value, next } => Parsed::Done { value: Some(value), next },
            Parsed::Failed { error, at } => Parsed::Failed { error, at },
            Parsed::Aborted { message } => Parsed::Aborted { message },
        }
    }
}

/// An optional expression that ends before a token of kind `end`.
pub open spec fn optional_expression_at(toks: Seq<Token>, p: int, end: TokenType) -> Parsed<
    Option<SpecExpr>,
> {
    if !(0 <= p < toks.len()) {
        Parsed::Aborted { message: unwrap_message() }
    } else if toks[p].token_type != end {
        match expression_at(toks, p) {
            Parsed::Done { value, next } => Parsed::Done { value: Some(value), next },
            Parsed::Failed { error, at } => Parsed::Failed { error, at },
            Parsed::Aborted { message } => Parsed::Aborted { message },
        }
    } else {
        Parsed::Done { value: None, next: p }
    }
}

/// The `while` loop that a `for` loop stands for.
pub open spec fn desugar_for(
    initializer: Option<SpecStmt>,
    condition: Option<SpecExpr>,
    increment: Option<SpecExpr>,
    stm: SpecStmt,
) -> SpecStmt {
    let body = match increment {
        Some(expr) => SpecStmt::Block(seq![SpecStmt::Expr(expr), stm]),
        None => stm,
    };
    let while_stm = match condition {
        Some(cond) => SpecStmt::While(cond, Box::new(body)),
        None => SpecStmt::While(SpecExpr::Literal(Object::True), Box::new(body)),
    };
    match initializer {
        Some(init) => SpecStmt::Block(seq![init, while_stm]),
        None => while_stm,
    }
}

/// The clauses of a `for` statement whose `for` has been read, from its `(`
/// through its `)`: the initializer, the condition and the increment.
pub open spec fn for_clauses_at(toks: Seq<Token>, p: int) -> Parsed<
    (Option<SpecStmt>, Option<SpecExpr>, Option<SpecExpr>),
> {
    if !tok_is(toks, p, TokenType::LEFT_PAREN) {
        Parsed::Aborted { message: "Expect '(' after 'for'."@ }
    } else {
        match for_initializer_at(toks, p + 1) {
            Parsed::Done { value: initializer, next: q1 } => match optional_expression_at(
                toks,
                q1,
                TokenType::SEMICOLON,
            ) {
                Parsed::Done { value: condition, next: q2 } => if !tok_is(
                    toks,
                    q2,
                    TokenType::SEMICOLON,
                ) {
                    Parsed::Aborted { message: "Expect ';' after loop condition."@ }
                } else {
                    match optional_expression_at(toks, q2 + 1, TokenType::RIGHT_PAREN) {
                        Parsed::Done { value: increment, next: q3 } => if !tok_is(
                            toks,
                            q3,
                            TokenType::RIGHT_PAREN,
                        ) {
                            Parsed::Aborted { message: "Expect ')' after for clauses."@ }
                        } else {
                            Parsed::Done { value: (initializer, condition, increment), next: q3 + 1 }
                        },
                        Parsed::Failed { error, at } => Parsed::Failed { error, at },
                        Parsed::Aborted { message } => Parsed::Aborted { message },
                    }
                },
                Parsed::Failed { error, at } => Parsed::Failed { error, at },
                Parsed::Aborted { message } => Parsed::Aborted { message },
            },
            Parsed::Failed { error, at } => Parsed::Failed { error, at },
            Parsed::Aborted { message } => Parsed::Aborted { message },
        }
    }
}

/// A `print` statement whose `print` has been read.
pub open spec fn print_statement_at(toks: Seq<Token>, p: int) -> Parsed<SpecStmt> {
    match expression_at(toks, p) {
        Parsed::Done { value, next } => if tok_is(toks, next, TokenType::SEMICOLON) {
            Parsed::Done { value: SpecStmt::Print(value), next: next + 1 }
        } else {
            Parsed::Aborted { message: "Expect ';' after value."@ }
        },
        Parsed::Failed { error, at } => Parsed::Failed { error, at },
        Parsed::Aborted { message } => Parsed::Aborted { message },
    }
}

/// A `return` statement whose `return` has been read.
pub open spec fn return_statement_at(toks: Seq<Token>, p: int) -> Parsed<SpecStmt> {
    match optional_expression_at(toks, p, TokenType::SEMICOLON) {
        Parsed::Done { value, next } => if tok_is(toks, next, TokenType::SEMICOLON) {
            Parsed::Done {
                value: SpecStmt::Return(
                    match value {
                        Some(e) => e,
                        None => SpecExpr::Literal(Object::Nil),
                    },
                ),
                next: next + 1,
            }
        } else {
            Parsed::Aborted { message: "Expect ';' after return value"@ }
        },
        Parsed::Failed { error, at } => Parsed::Failed { error, at },
        Parsed::Aborted { message } => Parsed::Aborted { message },
    }
}

pub open spec fn expression_statement_at(toks: Seq<Token>, p: int) -> Parsed<SpecStmt> {
    match expression_at(toks, p) {
        Parsed::Done { value, next } => if tok_is(toks, next, TokenType::SEMICOLON) {
            Parsed::Done { value: SpecStmt::Expr(value), next: next + 1 }
        } else {
            Parsed::Aborted { message: "Expect ';' after expression"@ }
        },
        Parsed::Failed { error, at } => Parsed::Failed { error, at },
        Parsed::Aborted { message } => Parsed::Aborted { message },
    }
}

/// The rules of the statement grammar that read statements nested in them.
pub enum StmtRule {
    /// A declaration, with error recovery when it is in error.
    Declaration,
    /// A function or method whose `fun` (if any) has been read; the text
    /// names its kind in messages.
    Function(Seq<char>),
    Statement,
    /// The rest of a `for` statement whose `for` has been read.
    For,
    /// The rest of a class declaration whose `class` has been read.
    Class,
    /// The methods of a class body after those read so far, and its `}`.
    ClassBody(Token, Option<Var>, Seq<SpecStmt>),
    /// The rest of a `while` statement whose `while` has been read.
    While,
    /// The rest of an `if` statement whose `if` has been read.
    If,
    /// The statements of a block after those read so far, and its `}`.
    Block(Seq<SpecStmt>),
}

/// The order of the rules: a rule reads at a position only by rules of lower
/// rank at that position.
pub open spec fn stmt_rank(rule: StmtRule) -> nat {
    match rule {
        StmtRule::Block(_) => 510,
        StmtRule::Declaration => 500,
        StmtRule::ClassBody(_, _, _) => 495,
        StmtRule::Function(_) => 490,
        StmtRule::Statement => 480,
        _ => 470,
    }
}

/// Reading by `rule` from position `p`.
pub open spec fn stmt_rule(toks: Seq<Token>, p: int, rule: StmtRule) -> Parsed<SpecStmt>
    decreases toks.len() - p, stmt_rank(rule),
{
    match rule {
        StmtRule::Declaration => {
            let attempt = if tok_is(toks, p, TokenType::VAR) {
                var_declaration_at(toks, p + 1)
            } else if tok_is(toks, p, TokenType::FUN) {
                stmt_rule(toks, p + 1, StmtRule::Function("function"@))
            } else {
                stmt_rule(toks, p, StmtRule::Statement)
            };
            match attempt {
                Parsed::Failed { error, at } => if 0 <= at < toks.len() {
                    synchronize_at(toks, at)
                } else {
                    Parsed::Aborted {
                        message: index_message(toks.len(), if at < 0 {
                            0nat
                        } else {
                            at as nat
                        }),
                    }
                },
                other => other,
            }
        },
        StmtRule::Function(kind) => if !tok_is(toks, p, TokenType::IDENTIFIER) {
            Parsed::Aborted { message: "Expect "@ + kind + " name."@ }
        } else if !tok_is(toks, p + 1, TokenType::LEFT_PAREN) {
            Parsed::Aborted { message: "Expect '(' after "@ + kind + " name."@ }
        } else {
            let params = if !(0 <= p + 2 < toks.len()) {
                Parsed::Aborted { message: unwrap_message() }
            } else if toks[p + 2].token_type != TokenType::RIGHT_PAREN {
                parameters_at(toks, p + 2, Seq::empty())
            } else {
                Parsed::Done { value: Seq::empty(), next: p + 2 }
            };
            match params {
                Parsed::Done { value: params, next: q } => if !(p <= q <= toks.len()) {
                    Parsed::Aborted { message: Seq::empty() }
                } else if !tok_is(toks, q, TokenType::RIGHT_PAREN) {
                    Parsed::Aborted { message: "Expect ')' after parameters"@ }
                } else if !tok_is(toks, q + 1, TokenType::LEFT_BRACE) {
                    Parsed::Aborted { message: "Expect '{' before "@ + kind + " body."@ }
                } else {
                    match stmt_rule(toks, q + 2, StmtRule::Block(Seq::empty())) {
                        Parsed::Done { value: body, next } => Parsed::Done {
                            value: SpecStmt::FuncDecl(toks[p], params, Box::new(body)),
                            next,
                        },
                        other => other,
                    }
                },
                Parsed::Failed { error, at } => Parsed::Failed { error, at },
                Parsed::Aborted { message } => Parsed::Aborted { message },
            }
        },
        StmtRule::Statement => if tok_is(toks, p, TokenType::PRINT) {
            print_statement_at(toks, p + 1)
        } else if tok_is(toks, p, TokenType::LEFT_BRACE) {
            stmt_rule(toks, p + 1, StmtRule::Block(Seq::empty()))
        } else if tok_is(toks, p, TokenType::FOR) {
            stmt_rule(toks, p + 1, StmtRule::For)
        } else if tok_is(toks, p, TokenType::IF) {
            stmt_rule(toks, p + 1, StmtRule::If)
        } else if tok_is(toks, p, TokenType::WHILE) {
            stmt_rule(toks, p + 1, StmtRule::While)
        } else if tok_is(toks, p, TokenType::RETURN) {
            return_statement_at(toks, p + 1)
        } else if tok_is(toks, p, TokenType::CLASS) {
            stmt_rule(toks, p + 1, StmtRule::Class)
        } else {
            expression_statement_at(toks, p)
        },
        StmtRule::For => match for_clauses_at(toks, p) {
            Parsed::Done { value: clauses, next: q } => if !(p < q <= toks.len()) {
                Parsed::Aborted { message: Seq::empty() }
            } else {
                match stmt_rule(toks, q, StmtRule::Statement) {
                    Parsed::Done { value: stm, next } => Parsed::Done {
                        value: desugar_for(clauses.0, clauses.1, clauses.2, stm),
                        next,
                    },
                    other => other,
                }
            },
            Parsed::Failed { error, at } => Parsed::Failed { error, at },
            Parsed::Aborted { message } => Parsed::Aborted { message },
        },
        StmtRule::Class => if !tok_is(toks, p, TokenType::IDENTIFIER) {
            Parsed::Aborted { message: "Expect class name."@ }
        } else if tok_is(toks, p + 1, TokenType::LESS) && !tok_is(
            toks,
            p + 2,
            TokenType::IDENTIFIER,
        ) {
            Parsed::Aborted { message: "Expect superclass name."@ }
        } else {
            let has_super = tok_is(toks, p + 1, TokenType::LESS);
            let q = if has_super {
                p + 3
            } else {
                p + 1
            };
            let superclass = if has_super {
                Some(unresolved(toks[p + 2]))
            } else {
                None
            };
            if !tok_is(toks, q, TokenType::LEFT_BRACE) {
                Parsed::Aborted { message: "Expect '{' before class body."@ }
            } else {
                stmt_rule(toks, q + 1, StmtRule::ClassBody(toks[p], superclass, Seq::empty()))
            }
        },
        StmtRule::ClassBody(name, superclass, methods) => if !(0 <= p < toks.len()) {
            Parsed::Aborted { message: unwrap_message() }
        } else if toks[p].token_type == TokenType::RIGHT_BRACE {
            Parsed::Done { value: SpecStmt::ClassDecl(name, superclass, methods), next: p + 1 }
        } else {
            match stmt_rule(toks, p, StmtRule::Function("method"@)) {
                Parsed::Done { value, next } => if p < next <= toks.len() {
                    stmt_rule(toks, next, StmtRule::ClassBody(name, superclass, methods.push(value)))
                } else {
                    Parsed::Aborted { message: Seq::empty() }
                },
                other => other,
            }
        },
        StmtRule::While => if !tok_is(toks, p, TokenType::LEFT_PAREN) {
            Parsed::Aborted { message: "Expect '(' after 'while'."@ }
        } else {
            match expression_at(toks, p + 1) {
                Parsed::Done { value: cond, next: q } => if !tok_is(
                    toks,
                    q,
                    TokenType::RIGHT_PAREN,
                ) {
                    Parsed::Aborted { message: "Expect ')' after condition"@ }
                } else if !(p < q) {
                    Parsed::Aborted { message: Seq::empty() }
                } else {
                    match stmt_rule(toks, q + 1, StmtRule::Statement) {
                        Parsed::Done { value: body, next } => Parsed::Done {
                            value: SpecStmt::While(cond, Box::new(body)),
                            next,
                        },
                        other => other,
                    }
                },
                Parsed::Failed { error, at } => Parsed::Failed { error, at },
                Parsed::Aborted { message } => Parsed::Aborted { message },
            }
        },
        StmtRule::If => if !tok_is(toks, p, TokenType::LEFT_PAREN) {
            Parsed::Aborted { message: "Expect '(' after 'if'."@ }
        } else {
            match expression_at(toks, p + 1) {
                Parsed::Done { value: cond, next: q } => if !tok_is(
                    toks,
                    q,
                    TokenType::RIGHT_PAREN,
                ) {
                    Parsed::Aborted { message: "Expect ')' after if condition"@ }
                } else if !(p < q) {
                    Parsed::Aborted { message: Seq::empty() }
                } else {
                    match stmt_rule(toks, q + 1, StmtRule::Statement) {
                        Parsed::Done { value: then_branch, next: r } => if !tok_is(
                            toks,
                            r,
                            TokenType::ELSE,
                        ) {
                            Parsed::Done {
                                value: SpecStmt::If(cond, Box::new(then_branch), None),
                                next: r,
                            }
                        } else if !(p < r) {
                            Parsed::Aborted { message: Seq::empty() }
                        } else {
                            match stmt_rule(toks, r + 1, StmtRule::Statement) {
                                Parsed::Done { value: else_branch, next } => Parsed::Done {
                                    value: SpecStmt::If(
                                        cond,
                                        Box::new(then_branch),
                                        Some(Box::new(else_branch)),
                                    ),
                                    next,
                                },
                                other => other,
                            }
                        },
                        other => other,
                    }
                },
                Parsed::Failed { error, at } => Parsed::Failed { error, at },
                Parsed::Aborted { message } => Parsed::Aborted { message },
            }
        },
        StmtRule::Block(stmts) => if !(0 <= p < toks.len()) {
            Parsed::Aborted { message: unwrap_message() }
        } else if toks[p].token_type == TokenType::RIGHT_BRACE {
            Parsed::Done { value: SpecStmt::Block(stmts), next: p + 1 }
        } else {
            match stmt_rule(toks, p, StmtRule::Declaration) {
                Parsed::Done { value, next } => if p < next <= toks.len() {
                    stmt_rule(toks, next, StmtRule::Block(stmts.push(value)))
                } else {
                    Parsed::Aborted { message: Seq::empty() }
                },
                other => other,
            }
        },
    }
}

pub open spec fn declaration_at(toks: Seq<Token>, p: int) -> Parsed<SpecStmt> {
    stmt_rule(toks, p, StmtRule::Declaration)
}

pub open spec fn function_at(toks: Seq<Token>, p: int, kind: Seq<char>) -> Parsed<SpecStmt> {
    stmt_rule(toks, p, StmtRule::Function(kind))
}

pub open spec fn statement_at(toks: Seq<Token>, p: int) -> Parsed<SpecStmt> {
    stmt_rule(toks, p, StmtRule::Statement)
}

pub open spec fn for_statement_at(toks: Seq<Token>, p: int) -> Parsed<SpecStmt> {
    stmt_rule(toks, p, StmtRule::For)
}

pub open spec fn class_statement_at(toks: Seq<Token>, p: int) -> Parsed<SpecStmt> {
    stmt_rule(toks, p, StmtRule::Class)
}

pub open spec fn class_body_at(
    toks: Seq<Token>,
    p: int,
    name: Token,
    superclass: Option<Var>,
    methods: Seq<SpecStmt>,
) -> Parsed<SpecStmt> {
    stmt_rule(toks, p, StmtRule::ClassBody(name, superclass, methods))
}

pub open spec fn while_statement_at(toks: Seq<Token>, p: int) -> Parsed<SpecStmt> {
    stmt_rule(toks, p, StmtRule::While)
}

pub open spec fn if_statement_at(toks: Seq<Token>, p: int) -> Parsed<SpecStmt> {
    stmt_rule(toks, p, StmtRule::If)
}

/// A block whose `{` has been read.
pub open spec fn block_at(toks: Seq<Token>, p: int) -> Parsed<SpecStmt> {
    stmt_rule(toks, p, StmtRule::Block(Seq::empty()))
}

pub open spec fn block_rest(toks: Seq<Token>, p: int, stmts: Seq<SpecStmt>) -> Parsed<SpecStmt> {
    stmt_rule(toks, p, StmtRule::Block(stmts))
}

/// Error recovery never reads a statement: it ends in an error, or aborts.
pub proof fn law_synchronize_never_reads(toks: Seq<Token>, p: int)
    ensures
        !(synchronize_at(toks, p) is Done),
{
    if 0 <= p < toks.len() {
        lemma_synchronize_rest(toks, p + 1);
    }
}

proof fn lemma_synchronize_rest(toks: Seq<Token>, p: int)
    ensures
        !(synchronize_rest(toks, p) is Done),
    decreases toks.len() - p,
{
    if 1 <= p < toks.len() && toks[p - 1].token_type != TokenType::SEMICOLON && is_sync_keyword(
        toks[p].token_type,
    ) {
        lemma_synchronize_rest(toks, p + 1);
    }
}

/// A declaration in error is never read as a statement: reading it ends in
/// the error that error recovery gives, or aborts.
pub proof fn law_declaration_in_error(toks: Seq<Token>, p: int)
    ensures
        declaration_at(toks, p) is Done ==> !(if tok_is(toks, p, TokenType::VAR) {
            var_declaration_at(toks, p + 1)
        } else if tok_is(toks, p, TokenType::FUN) {
            function_at(toks, p + 1, "function"@)
        } else {
            statement_at(toks, p)
        } is Failed),
{
    let attempt = if tok_is(toks, p, TokenType::VAR) {
        var_declaration_at(toks, p + 1)
    } else if tok_is(toks, p, TokenType::FUN) {
        function_at(toks, p + 1, "function"@)
    } else {
        statement_at(toks, p)
    };
    if let Parsed::Failed { error, at } = attempt {
        law_synchronize_never_reads(toks, at);
    }
}

/// A program that is read is read to its end: up to the end-of-file token,
/// or to the last token when there is none.
pub proof fn law_program_read_to_end(toks: Seq<Token>, p: int, acc: Seq<SpecStmt>)
    requires
        0 <= p,
    ensures
        program_at(toks, p, acc) matches Parsed::Done { next, .. } ==> next >= toks.len() || (1
            <= next <= toks.len() && toks[next - 1].token_type == TokenType::EOF),
    decreases toks.len() - p,
{
    if 0 <= p < toks.len() && toks[p].token_type != TokenType::EOF {
        if let Parsed::Done { value, next } = declaration_at(toks, p) {
            if p < next <= toks.len() {
                law_program_read_to_end(toks, next, acc.push(value));
            }
        }
    }
}

} // verus!
