use rlox::expressions::Expr;
use rlox::lox_error::Halt;
use rlox::{run, Clock, LoxError, Statement};

#[test]
fn run_front_end_resolves_program() {
    let stmts = run("var a = 1; { print a; }".to_string()).unwrap();
    assert_eq!(stmts.len(), 2);
    match &stmts[1] {
        Statement::Block(inner) => match &inner[0] {
            Statement::Print(Expr::Variable(v)) => assert_eq!(v.hops, 1),
            other => panic!("unexpected {:?}", other),
        },
        other => panic!("unexpected {:?}", other),
    }
}

#[test]
fn run_reports_scan_error() {
    match run("print #;".to_string()) {
        Err(Halt::Error(LoxError::Error(m))) => {
            assert_eq!(m, "Unexpected character '#' in line 0 !")
        }
        other => panic!("unexpected {:?}", other),
    }
}

#[test]
fn run_reports_parse_error() {
    match run("print ;".to_string()) {
        Err(Halt::Error(LoxError::Error(m))) => assert_eq!(m, "Sync"),
        other => panic!("unexpected {:?}", other),
    }
}

#[test]
fn run_reports_resolution_stop() {
    match run("print this;".to_string()) {
        Err(Halt::Panic(m)) => assert_eq!(m, "Can't use 'this' outside of a class."),
        other => panic!("unexpected {:?}", other),
    }
}

#[test]
fn clock_has_no_parameters() {
    let c = Clock;
    assert_eq!(c.arity(), 0);
    assert_eq!(c.name(), "clock");
}
