use rlox::environment::Environment;
use rlox::token::{Span, Token, TokenType};

fn name(s: &str) -> Token {
    Token {
        token_type: TokenType::Identifier,
        lexeme: s.to_string(),
        literal: None,
        span: Span { line_start: 1, col_start: 1, line_end: 1, col_end: 1 + s.len() as u32 },
    }
}

#[test]
fn define_then_get() {
    let mut env: Environment<i64> = Environment::new();
    env.define("x".to_string(), 1);
    env.define("y".to_string(), 2);
    env.define("x".to_string(), 3);
    assert_eq!(env.get(name("x")).unwrap(), 3);
    assert_eq!(env.get(name("y")).unwrap(), 2);
}

#[test]
fn undefined_variable() {
    let env: Environment<i64> = Environment::new();
    let err = env.get(name("missing")).unwrap_err();
    assert_eq!(err.message, "Undefined variable 'missing'.");
}

#[test]
fn assign_needs_a_definition() {
    let mut env: Environment<i64> = Environment::new();
    let err = env.assign(name("z"), 5).unwrap_err();
    assert_eq!(err.message, "Undefined variable 'z'.");
    assert!(env.get(name("z")).is_err());
    env.define("z".to_string(), 0);
    assert!(env.assign(name("z"), 5).is_ok());
    assert_eq!(env.get(name("z")).unwrap(), 5);
}

#[test]
fn inner_scopes_see_and_shadow() {
    let mut outer: Environment<i64> = Environment::new();
    outer.define("a".to_string(), 1);
    outer.define("b".to_string(), 2);
    let mut inner = outer.child();
    assert_eq!(inner.get(name("a")).unwrap(), 1);
    inner.define("a".to_string(), 10);
    assert_eq!(inner.get(name("a")).unwrap(), 10);
    assert!(inner.assign(name("b"), 20).is_ok());
    let outer = *inner.parent.take().unwrap();
    assert_eq!(outer.get(name("a")).unwrap(), 1);
    assert_eq!(outer.get(name("b")).unwrap(), 20);
}

#[test]
fn scopes_by_distance() {
    let mut global: Environment<i64> = Environment::new();
    global.define("g".to_string(), 7);
    let mut env = global.child().child();
    env.define("l".to_string(), 1);
    assert_eq!(env.get_at(2, "g").unwrap(), 7);
    assert_eq!(env.get_at(0, "l").unwrap(), 1);
    assert_eq!(env.get_at(0, "g").unwrap_err().message, "Undefined variable 'g'.");
    env.assign_at(2, "g", 8);
    env.assign_at(1, "m", 9);
    assert_eq!(env.get(name("g")).unwrap(), 8);
    assert_eq!(env.get_at(1, "m").unwrap(), 9);
    assert!(env.ancestor(1).get(name("l")).is_err());
    assert_eq!(env.ancestor(2).get(name("g")).unwrap(), 8);
}
