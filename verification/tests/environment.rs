use rlox::expressions::Var;
use rlox::Environment;

#[derive(Debug, Clone, PartialEq)]
enum Object {
    Number(f64),
}

#[test]
fn env_define() {
    let mut env = Environment::new();
    env.define("x".to_string(), Object::Number(10.0));
    assert_eq!(env.get("x").unwrap(), Object::Number(10.0));
}

#[test]
fn env_assign() {
    let mut env = Environment::new();
    env.define("x".to_string(), Object::Number(10.0));
    env.assign("x".to_string(), Object::Number(102.0)).unwrap();
    assert_eq!(env.get("x").unwrap(), Object::Number(102.0));
}

#[test]
#[should_panic]
fn env_assign_without_define() {
    let mut env: Environment<Object> = Environment::new();
    env.assign("x".to_string(), Object::Number(102.0)).unwrap();
    assert_eq!(env.get("x").unwrap(), Object::Number(102.0));
}

#[test]
fn env_get_at() {
    let mut env = Environment::new();
    env.define("x".to_string(), Object::Number(10.0));
    let env = Environment::new_with_enclosing(env);

    assert_eq!(
        env.get_at(&Var::new_wo_token("x", 1)).unwrap(),
        Object::Number(10.0)
    );
}

#[test]
fn env_assign_at() {
    let mut env = Environment::new();
    env.define("x".to_string(), Object::Number(10.0));
    let mut env = Environment::new_with_enclosing(env);

    env.assign_at(&Var::new_wo_token("x", 1), Object::Number(100.0))
        .unwrap();

    assert_eq!(
        env.get_at(&Var::new_wo_token("x", 1)).unwrap(),
        Object::Number(100.0)
    );
}

#[test]
fn env_undefined_message() {
    let env: Environment<Object> = Environment::new();
    match env.get("nope") {
        Err(rlox::LoxError::UndefinedVariable(m)) => {
            assert_eq!(m, "Undefined variable 'nope'.")
        }
        other => panic!("unexpected {:?}", other),
    }
}

#[test]
fn env_assign_undefined_leaves_nothing() {
    let mut env: Environment<Object> = Environment::new();
    let r = env.assign("y".to_string(), Object::Number(1.0));
    assert!(matches!(r, Err(rlox::LoxError::UndefinedVariable(_))));
    assert!(env.get("y").is_err());
}

#[test]
fn env_define_replaces_in_same_frame() {
    let mut env = Environment::new();
    env.define("a".to_string(), Object::Number(1.0));
    env.define("a".to_string(), Object::Number(2.0));
    assert_eq!(env.get("a").unwrap(), Object::Number(2.0));
}

#[test]
fn env_inner_shadows_outer_and_outer_survives() {
    let mut env = Environment::new();
    env.define("a".to_string(), Object::Number(1.0));
    let global = env.current();
    let mut env = Environment::new_with_enclosing(env);
    env.define("a".to_string(), Object::Number(2.0));
    assert_eq!(env.get("a").unwrap(), Object::Number(2.0));
    env.set_current(global);
    assert_eq!(env.get("a").unwrap(), Object::Number(1.0));
}

#[test]
fn env_assign_through_inner_frame_reaches_outer() {
    let mut env = Environment::new();
    env.define("a".to_string(), Object::Number(1.0));
    let global = env.current();
    env.enter(global);
    env.assign("a".to_string(), Object::Number(5.0)).unwrap();
    env.set_current(global);
    assert_eq!(env.get("a").unwrap(), Object::Number(5.0));
}

#[test]
fn env_has_ancestor_depth() {
    let mut env: Environment<Object> = Environment::new();
    assert!(env.has_ancestor(0));
    assert!(!env.has_ancestor(1));
    let g = env.current();
    env.enter(g);
    assert!(env.has_ancestor(1));
    assert!(!env.has_ancestor(2));
}

#[test]
fn env_get_at_continues_outward() {
    let mut env = Environment::new();
    env.define("x".to_string(), Object::Number(3.0));
    let g = env.current();
    env.enter(g);
    let inner = env.current();
    env.enter(inner);
    // One step out is the middle frame, which does not bind x; the lookup
    // goes on to the global frame.
    assert_eq!(
        env.get_at(&Var::new_wo_token("x", 1)).unwrap(),
        Object::Number(3.0)
    );
}

#[test]
fn env_default_is_new() {
    let env: Environment<Object> = Environment::default();
    assert_eq!(env.current(), 0);
    assert_eq!(env.frame_total(), 1);
    assert!(env.get("x").is_err());
}

#[test]
fn env_enclosed_frame_sees_later_outer_bindings() {
    let mut env = Environment::new();
    env.define("a".to_string(), Object::Number(1.0));
    let global = env.current();
    let mut env = Environment::new_with_enclosing(env);
    let inner = env.current();
    env.set_current(global);
    env.define("b".to_string(), Object::Number(2.0));
    env.assign("a".to_string(), Object::Number(3.0)).unwrap();
    env.set_current(inner);
    assert_eq!(env.get("b").unwrap(), Object::Number(2.0));
    assert_eq!(env.get("a").unwrap(), Object::Number(3.0));
}
