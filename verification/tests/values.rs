use rlox::expressions::{Expr, Var};
use rlox::statements::{copy_stmt, Statement};
use rlox::tokens::{Object, Token, TokenType};
use rlox::LoxError;
use std::collections::VecDeque;

#[test]
fn token_new_keeps_its_parts() {
    let t = Token::new(TokenType::NUMBER, "12".to_string(), Some(Object::Number("12".to_string())), 3);
    assert_eq!(t.token_type, TokenType::NUMBER);
    assert_eq!(t.lexeme, "12");
    assert_eq!(t.literal, Some(Object::Number("12".to_string())));
    assert_eq!(t.line, 3);
}

#[test]
fn var_new_is_unresolved() {
    let v = Var::new(Token::new(TokenType::IDENTIFIER, "a".to_string(), None, 1));
    assert_eq!(v.hops, 0);
    assert_eq!(v.name(), "a");
}

#[test]
fn var_new_wo_token_names_an_identifier() {
    let v = Var::new_wo_token("x", 4);
    assert_eq!(v.identifier.token_type, TokenType::IDENTIFIER);
    assert_eq!(v.identifier.lexeme, "x");
    assert_eq!(v.identifier.literal, None);
    assert_eq!(v.identifier.line, 0);
    assert_eq!(v.hops, 4);
}

#[test]
fn io_error_converts() {
    let e: LoxError = std::io::Error::new(std::io::ErrorKind::Other, "disk").into();
    assert!(matches!(e, LoxError::IoError(_)));
}

#[test]
fn statement_copies_are_equal() {
    let x = Var::new_wo_token("x", 1);
    let s = Statement::Block(VecDeque::from(vec![
        Statement::Print(Expr::Call(
            Box::new(Expr::Variable(x.clone())),
            vec![Expr::Literal(Object::True), Expr::Literal(Object::Nil)],
        )),
        Statement::FuncDecl(
            Token::new(TokenType::IDENTIFIER, "f".to_string(), None, 0),
            vec![Token::new(TokenType::IDENTIFIER, "p".to_string(), None, 0)],
            Box::new(Statement::Return(Expr::Variable(x))),
        ),
    ]));
    assert_eq!(copy_stmt(&s), s);
    assert_eq!(s.clone(), s);
}
