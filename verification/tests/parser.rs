use rlox::expressions::{Expr, Var};
use rlox::lox_error::Halt;
use rlox::tokens::{Object, Token, TokenType};
use rlox::{LoxError, Parser, Scanner, Statement};

fn tokens(src: &str) -> Vec<Token> {
    let mut s = Scanner::new(src.to_string());
    s.scan_tokens().unwrap();
    s.get_tokens()
}

fn parse(src: &str) -> Result<Vec<Statement>, LoxError> {
    let mut p = Parser::new(tokens(src));
    p.parse()
}

fn parse_or_halt(src: &str) -> Result<Vec<Statement>, Halt> {
    let mut p = Parser::new(tokens(src));
    p.parse_or_halt()
}

fn tok(tt: TokenType, lexeme: &str, line: usize) -> Token {
    Token::new(tt, lexeme.to_string(), None, line)
}

fn num(text: &str) -> Expr {
    Expr::Literal(Object::Number(text.to_string()))
}

#[test]
fn parse_print_precedence() {
    let stmts = parse("print 1 + 2 * 3;").unwrap();
    let expected = Statement::Print(Expr::Binary(
        Box::new(num("1")),
        tok(TokenType::PLUS, "+", 0),
        Box::new(Expr::Binary(
            Box::new(num("2")),
            tok(TokenType::STAR, "*", 0),
            Box::new(num("3")),
        )),
    ));
    assert_eq!(stmts, vec![expected]);
}

#[test]
fn parse_var_declaration_without_initializer() {
    let stmts = parse("var a;").unwrap();
    assert_eq!(
        stmts,
        vec![Statement::VarDecl(tok(TokenType::IDENTIFIER, "a", 0), Expr::Literal(Object::Nil))]
    );
}

#[test]
fn parse_assignment_to_variable_and_field() {
    let stmts = parse("a = 1; b.c = 2;").unwrap();
    let a = Var::new(tok(TokenType::IDENTIFIER, "a", 0));
    let b = Var::new(tok(TokenType::IDENTIFIER, "b", 0));
    assert_eq!(
        stmts,
        vec![
            Statement::Expr(Expr::Assignment(a, Box::new(num("1")))),
            Statement::Expr(Expr::SetField(
                Box::new(num("2")),
                tok(TokenType::IDENTIFIER, "c", 0),
                Box::new(Expr::Variable(b)),
            )),
        ]
    );
}

#[test]
fn parse_invalid_assignment_target_ends_in_sync_error() {
    // The target `1` is invalid; error recovery then ends the reading.
    assert!(matches!(parse("1 = 2;"), Err(LoxError::Error(m)) if m == "Sync"));
}

#[test]
fn parse_missing_operand_ends_in_sync_error() {
    assert!(matches!(parse("print 1 + ;"), Err(LoxError::Error(m)) if m == "Sync"));
}

#[test]
fn parse_for_desugars_to_while() {
    let stmts = parse("for (var i = 0; i < 3; i = i + 1) print i;").unwrap();
    assert_eq!(stmts.len(), 1);
    match &stmts[0] {
        Statement::Block(outer) => {
            assert_eq!(outer.len(), 2);
            assert!(matches!(outer[0], Statement::VarDecl(_, _)));
            match &outer[1] {
                Statement::While(Expr::Binary(_, op, _), body) => {
                    assert_eq!(op.token_type, TokenType::LESS);
                    match &**body {
                        Statement::Block(inner) => {
                            assert_eq!(inner.len(), 2);
                            // The increment comes first in the loop body.
                            assert!(matches!(inner[0], Statement::Expr(Expr::Assignment(_, _))));
                            assert!(matches!(inner[1], Statement::Print(_)));
                        }
                        other => panic!("unexpected {:?}", other),
                    }
                }
                other => panic!("unexpected {:?}", other),
            }
        }
        other => panic!("unexpected {:?}", other),
    }
}

#[test]
fn parse_for_without_clauses_loops_on_true() {
    let stmts = parse("for (;;) print 1;").unwrap();
    assert_eq!(
        stmts,
        vec![Statement::While(
            Expr::Literal(Object::True),
            Box::new(Statement::Print(num("1")))
        )]
    );
}

#[test]
fn parse_function_and_call() {
    let stmts = parse("fun f(a, b) { return a; } f(1, 2);").unwrap();
    assert_eq!(stmts.len(), 2);
    match &stmts[0] {
        Statement::FuncDecl(name, params, body) => {
            assert_eq!(name.lexeme, "f");
            assert_eq!(params.len(), 2);
            assert!(matches!(&**body, Statement::Block(b) if b.len() == 1));
        }
        other => panic!("unexpected {:?}", other),
    }
    match &stmts[1] {
        Statement::Expr(Expr::Call(callee, args)) => {
            assert!(matches!(&**callee, Expr::Variable(_)));
            assert_eq!(args.len(), 2);
        }
        other => panic!("unexpected {:?}", other),
    }
}

#[test]
fn parse_class_with_superclass_and_methods() {
    let stmts = parse("class A < B { init() {} m() { return this; } }").unwrap();
    match &stmts[0] {
        Statement::ClassDecl(name, sup, methods) => {
            assert_eq!(name.lexeme, "A");
            assert_eq!(sup.as_ref().unwrap().identifier.lexeme, "B");
            assert_eq!(sup.as_ref().unwrap().hops, 0);
            assert_eq!(methods.len(), 2);
        }
        other => panic!("unexpected {:?}", other),
    }
}

#[test]
fn parse_if_else_and_logical() {
    let stmts = parse("if (a and b or c) print 1; else print 2;").unwrap();
    match &stmts[0] {
        Statement::If(Expr::Logical(_, op, _), _, Some(_)) => {
            assert_eq!(op.token_type, TokenType::OR)
        }
        other => panic!("unexpected {:?}", other),
    }
}

#[test]
fn parse_missing_semicolon_halts_with_message() {
    match parse_or_halt("print 1") {
        Err(Halt::Panic(m)) => assert_eq!(m, "Expect ';' after value."),
        other => panic!("unexpected {:?}", other),
    }
}

#[test]
fn parse_unclosed_block_halts() {
    match parse_or_halt("{ print 1;") {
        Err(Halt::Panic(m)) => assert_eq!(m, "index out of bounds: the len is 5 but the index is 5"),
        other => panic!("unexpected {:?}", other),
    }
}

#[test]
fn parse_super_needs_dot() {
    match parse_or_halt("super;") {
        Err(Halt::Panic(m)) => assert_eq!(m, "Expect '.' after 'super'."),
        other => panic!("unexpected {:?}", other),
    }
}

#[test]
fn parse_or_halt_agrees_with_parse() {
    let a = parse("var a = 1; print a;").unwrap();
    let b = parse_or_halt("var a = 1; print a;").unwrap();
    assert_eq!(a, b);
}

#[test]
fn parse_empty_program() {
    assert_eq!(parse("").unwrap(), vec![]);
}
