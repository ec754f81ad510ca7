use fun::eval::{empty_env, eval, free_variables, substitute};
use fun::term::{abs, app, var};
use std::collections::HashSet;

fn name_set(v: Vec<String>) -> HashSet<String> {
    v.into_iter().collect()
}

#[test]
fn eval_test_free_variables() {
    let term = abs("x", app(var("x"), var("y")));
    let free_vars = name_set(free_variables(&term));
    let expected_vars: HashSet<_> = vec!["y".to_string()].into_iter().collect();
    assert_eq!(free_vars, expected_vars);
}

#[test]
fn eval_test_substitute_simple() {
    let term = app(var("x"), var("y"));
    let replacement = var("z");
    let substituted = substitute(&term, "x", &replacement);
    let expected = app(var("z"), var("y"));
    assert_eq!(substituted, expected);
}

#[test]
fn eval_test_substitute_capture_avoiding() {
    let term = abs("x", var("y"));
    let replacement = var("x");
    let substituted = substitute(&term, "y", &replacement);
    let expected = abs("x_1", var("x"));
    assert_eq!(substituted, expected);
}

#[test]
fn eval_test_eval_simple_application() {
    // (λx. x) y -> y
    let term = app(abs("x", var("x")), var("y"));
    let evaluated = eval(&empty_env(), &term).unwrap();
    let expected = var("y");
    assert_eq!(evaluated, expected);
}

#[test]
fn eval_test_eval_nested_abstraction() {
    // (λx. λy. x) z -> λy. z
    let term = app(abs("x", abs("y", var("x"))), var("z"));
    let evaluated = eval(&empty_env(), &term).unwrap();
    let expected = abs("y", var("z"));
    assert_eq!(evaluated, expected);
}

#[test]
fn eval_test_free_variables_in_nested_abstraction() {
    let term = abs("x", abs("y", app(var("x"), var("z"))));
    let free_vars = name_set(free_variables(&term));
    let expected_vars: HashSet<_> = vec!["z".to_string()].into_iter().collect();
    assert_eq!(free_vars, expected_vars);
}

#[test]
fn eval_test_substitute_in_nested_abstraction() {
    let term = abs("x", app(var("x"), var("y")));
    let replacement = var("z");
    let substituted = substitute(&term, "y", &replacement);
    let expected = abs("x", app(var("x"), var("z")));
    assert_eq!(substituted, expected);
}

#[test]
fn eval_test_eval_complex_application() {
    let term = app(abs("x", app(abs("y", var("y")), var("x"))), var("z"));
    let evaluated = eval(&empty_env(), &term).unwrap();
    let expected = var("z");
    assert_eq!(evaluated, expected);
}
