use rlox::expressions::Expr;
use rlox::lox_error::Halt;
use rlox::resolver::ClassType;
use rlox::{Parser, Resolver, Scanner, Statement};

fn program(src: &str) -> Vec<Statement> {
    let mut s = Scanner::new(src.to_string());
    s.scan_tokens().unwrap();
    let mut p = Parser::new(s.get_tokens());
    p.parse().unwrap()
}

fn hops_of_print(s: &Statement) -> usize {
    match s {
        Statement::Print(Expr::Variable(v)) => v.hops,
        other => panic!("unexpected {:?}", other),
    }
}

#[test]
fn resolve_global_and_block_uses() {
    let mut stmts = program("var a = 1; { var b = a; print b; print a; }");
    Resolver::run(&mut stmts);
    match &stmts[1] {
        Statement::Block(inner) => {
            match &inner[0] {
                Statement::VarDecl(_, Expr::Variable(v)) => assert_eq!(v.hops, 1),
                other => panic!("unexpected {:?}", other),
            }
            assert_eq!(hops_of_print(&inner[1]), 0);
            assert_eq!(hops_of_print(&inner[2]), 1);
        }
        other => panic!("unexpected {:?}", other),
    }
}

#[test]
fn resolve_unknown_name_gets_the_number_of_scopes() {
    let mut stmts = program("{ print zzz; }");
    Resolver::run(&mut stmts);
    match &stmts[0] {
        Statement::Block(inner) => assert_eq!(hops_of_print(&inner[0]), 2),
        other => panic!("unexpected {:?}", other),
    }
}

#[test]
fn resolve_function_parameters() {
    let mut stmts = program("fun f(x) { print x; }");
    Resolver::run(&mut stmts);
    match &stmts[0] {
        Statement::FuncDecl(_, _, body) => match &**body {
            Statement::Block(inner) => assert_eq!(hops_of_print(&inner[0]), 1),
            other => panic!("unexpected {:?}", other),
        },
        other => panic!("unexpected {:?}", other),
    }
}

#[test]
fn resolve_own_initializer_is_refused() {
    let stmts = program("{ var a = a; }");
    match Resolver::run_checked(&stmts) {
        Err(Halt::Panic(m)) => {
            assert_eq!(m, "Cant't read local variable in its own initializer. a")
        }
        other => panic!("unexpected {:?}", other),
    }
}

#[test]
fn resolve_this_outside_class_is_refused() {
    let stmts = program("print this;");
    match Resolver::run_checked(&stmts) {
        Err(Halt::Panic(m)) => assert_eq!(m, "Can't use 'this' outside of a class."),
        other => panic!("unexpected {:?}", other),
    }
}

#[test]
fn resolve_return_in_initializer_is_refused() {
    let stmts = program("class A { init() { return 1; } }");
    match Resolver::run_checked(&stmts) {
        Err(Halt::Panic(m)) => assert_eq!(m, "Cant't return a value from an initializer."),
        other => panic!("unexpected {:?}", other),
    }
}

#[test]
fn resolve_this_in_method() {
    let stmts = program("class A { m() { print this; } }");
    let resolved = Resolver::run_checked(&stmts).unwrap();
    match &resolved[0] {
        Statement::ClassDecl(_, _, methods) => match &methods[0] {
            Statement::FuncDecl(_, _, body) => match &**body {
                Statement::Block(inner) => match &inner[0] {
                    Statement::Print(Expr::This(v)) => assert_eq!(v.hops, 2),
                    other => panic!("unexpected {:?}", other),
                },
                other => panic!("unexpected {:?}", other),
            },
            other => panic!("unexpected {:?}", other),
        },
        other => panic!("unexpected {:?}", other),
    }
}

#[test]
fn resolve_keeps_the_program_but_hops() {
    let stmts = program("var a = 1; while (a < 3) { a = a + 1; }");
    let resolved = Resolver::run_checked(&stmts).unwrap();
    assert_eq!(resolved.len(), stmts.len());
    assert!(matches!(resolved[1], Statement::While(_, _)));
}

#[test]
fn resolver_scopes_open_and_close() {
    let mut r = Resolver::new();
    r.begin_scope();
    r.end_scope();
    r.end_scope();
    let _ = ClassType::NoClass;
}

fn erase_expr(e: &mut Expr) {
    match e {
        Expr::Binary(l, _, r) | Expr::Logical(l, _, r) | Expr::SetField(l, _, r) => {
            erase_expr(l);
            erase_expr(r);
        }
        Expr::Grouping(x) | Expr::Unary(_, x) | Expr::Get(x, _) => erase_expr(x),
        Expr::Literal(_) => {}
        Expr::Variable(v) | Expr::This(v) | Expr::Super(v, _) => v.hops = 0,
        Expr::Assignment(v, x) => {
            v.hops = 0;
            erase_expr(x);
        }
        Expr::Call(c, args) => {
            erase_expr(c);
            for a in args.iter_mut() {
                erase_expr(a);
            }
        }
    }
}

fn erase_stmt(s: &mut Statement) {
    match s {
        Statement::VarDecl(_, e) | Statement::Expr(e) | Statement::Print(e) | Statement::Return(e) => {
            erase_expr(e)
        }
        Statement::ClassDecl(_, sup, ms) => {
            if let Some(v) = sup {
                v.hops = 0;
            }
            for m in ms.iter_mut() {
                erase_stmt(m);
            }
        }
        Statement::Block(ss) => {
            for x in ss.iter_mut() {
                erase_stmt(x);
            }
        }
        Statement::If(c, t, e) => {
            erase_expr(c);
            erase_stmt(t);
            if let Some(b) = e {
                erase_stmt(b);
            }
        }
        Statement::While(c, b) => {
            erase_expr(c);
            erase_stmt(b);
        }
        Statement::FuncDecl(_, _, b) => erase_stmt(b),
    }
}

#[test]
fn resolve_changes_nothing_but_hops() {
    let src = "var a = 1; fun f(x) { var y = x + a; { print y; a = y; } return f(y); } \
               class C { m() { return this.v; } } while (a < 3) { a = a + 1; }";
    let stmts = program(src);
    let mut resolved = Resolver::run_checked(&stmts).unwrap();
    for s in resolved.iter_mut() {
        erase_stmt(s);
    }
    assert_eq!(resolved, stmts);
}

#[test]
fn resolve_block_leaves_outer_scope() {
    let mut stmts = program("var a = 1; { var b = 2; } print a; var c = a;");
    Resolver::run(&mut stmts);
    assert_eq!(hops_of_print(&stmts[2]), 0);
    match &stmts[3] {
        Statement::VarDecl(_, Expr::Variable(v)) => assert_eq!(v.hops, 0),
        other => panic!("unexpected {:?}", other),
    }
}
