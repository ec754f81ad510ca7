use fun::eval::{empty_env, eval, eval_with_limit, EvalError};
use fun::parser::parse_expression;
use fun::pretty::pretty_print;
use fun::subst::{collect_all_vars, fresh_name};
use fun::term::{abs, add, app, b, div, eq, gt, i, ifte, lt, mul, sub, var, Env, Term};

fn church(n: usize) -> Term {
    let mut body = var("x");
    for _ in 0..n {
        body = app(var("f"), body);
    }
    abs("f", abs("x", body))
}

#[test]
fn church_two_plus_three_is_five() {
    let two = abs("f", abs("x", app(var("f"), app(var("f"), var("x")))));
    let three = abs("f", abs("x", app(var("f"), app(var("f"), app(var("f"), var("x"))))));
    let church_add = abs(
        "m",
        abs(
            "n",
            abs(
                "f",
                abs("x", app(app(var("m"), var("f")), app(app(var("n"), var("f")), var("x")))),
            ),
        ),
    );
    let sum = app(app(church_add, two), three);
    let result = eval(&empty_env(), &sum).unwrap();
    assert_eq!(result, church(5));
}

#[test]
fn parsed_sum_evaluates_to_five() {
    let (_, expr) = parse_expression("(2 + 3)").unwrap();
    assert_eq!(eval(&empty_env(), &expr).unwrap(), i(5));
}

#[test]
fn division_by_zero_is_an_error() {
    let term = div(i(1), i(0));
    assert_eq!(eval(&empty_env(), &term), Err(EvalError::DivisionByZero));
}

#[test]
fn arithmetic_and_comparisons() {
    let env = empty_env();
    assert_eq!(eval(&env, &add(i(2), i(3))).unwrap(), i(5));
    assert_eq!(eval(&env, &sub(i(2), i(3))).unwrap(), i(-1));
    assert_eq!(eval(&env, &mul(i(-4), i(3))).unwrap(), i(-12));
    assert_eq!(eval(&env, &div(i(-7), i(2))).unwrap(), i(-3));
    assert_eq!(eval(&env, &lt(i(1), i(2))).unwrap(), b(true));
    assert_eq!(eval(&env, &gt(i(1), i(2))).unwrap(), b(false));
    assert_eq!(eval(&env, &eq(i(2), i(2))).unwrap(), b(true));
    assert_eq!(eval(&env, &eq(b(true), b(false))).unwrap(), b(false));
}

#[test]
fn overflow_is_an_error() {
    let env = empty_env();
    assert_eq!(eval(&env, &add(i(i64::MAX), i(1))), Err(EvalError::Overflow));
    assert_eq!(eval(&env, &mul(i(i64::MIN), i(-1))), Err(EvalError::Overflow));
    assert_eq!(eval(&env, &div(i(i64::MIN), i(-1))), Err(EvalError::Overflow));
}

#[test]
fn stuck_terms_are_returned() {
    let env = empty_env();
    assert_eq!(eval(&env, &app(i(1), var("y"))).unwrap(), app(i(1), var("y")));
    assert_eq!(eval(&env, &eq(i(1), b(true))).unwrap(), eq(i(1), b(true)));
    assert_eq!(eval(&env, &lt(b(true), b(false))).unwrap(), lt(b(true), b(false)));
    assert_eq!(eval(&env, &add(var("a"), i(1))).unwrap(), add(var("a"), i(1)));
    // the branches of a stuck conditional stay as they are
    let cond = ifte(var("c"), add(i(1), i(1)), div(i(1), i(0)));
    assert_eq!(eval(&env, &cond).unwrap(), cond_copy());
}

fn cond_copy() -> Term {
    ifte(var("c"), add(i(1), i(1)), div(i(1), i(0)))
}

#[test]
fn conditional_takes_one_branch() {
    let env = empty_env();
    let t = ifte(b(true), i(1), div(i(1), i(0)));
    assert_eq!(eval(&env, &t).unwrap(), i(1));
    let e = ifte(lt(i(3), i(2)), div(i(1), i(0)), i(2));
    assert_eq!(eval(&env, &e).unwrap(), i(2));
}

#[test]
fn abstraction_body_is_evaluated() {
    let t = abs("x", add(i(1), i(2)));
    assert_eq!(eval(&empty_env(), &t).unwrap(), abs("x", i(3)));
}

#[test]
fn environment_lookup_and_shadowing() {
    let mut env = Env::new();
    env.insert("y".to_string(), i(7));
    env.insert("x".to_string(), i(1));
    assert_eq!(eval(&env, &var("y")).unwrap(), i(7));
    assert_eq!(eval(&env, &var("z")).unwrap(), var("z"));
    // the body of an abstraction is evaluated under the current bindings, before any call
    let t = app(abs("x", var("x")), i(5));
    assert_eq!(eval(&env, &t).unwrap(), i(1));
    env.insert("y".to_string(), i(8));
    assert_eq!(eval(&env, &var("y")).unwrap(), i(8));
}

#[test]
fn evaluation_is_deterministic() {
    let t = app(abs("x", add(var("x"), var("x"))), i(21));
    let env = empty_env();
    assert_eq!(eval(&env, &t), eval(&env, &t));
    assert_eq!(eval(&env, &t).unwrap(), i(42));
}

#[test]
fn evaluating_a_result_again_changes_nothing() {
    let env = empty_env();
    let terms = vec![
        app(abs("x", abs("y", var("x"))), var("z")),
        ifte(var("c"), i(1), i(2)),
        app(var("f"), add(i(1), i(2))),
        abs("x", app(abs("y", var("y")), var("x"))),
    ];
    for t in terms {
        let v = eval(&env, &t).unwrap();
        assert_eq!(eval(&env, &v).unwrap(), v);
    }
}

#[test]
fn step_limit_is_reported() {
    let t = app(abs("x", var("x")), i(1));
    assert_eq!(eval_with_limit(&empty_env(), &t, 1), Err(EvalError::StepLimitExceeded));
    assert_eq!(eval_with_limit(&empty_env(), &t, 3), Ok(i(1)));
}

#[test]
fn fresh_names_avoid_both_terms() {
    let t = abs("x", app(var("x"), var("x_1")));
    let r = app(var("x_2"), var("y"));
    let f = fresh_name(&"x".to_string(), &t, &r);
    assert_eq!(f, "x_3");
    let all: Vec<String> = collect_all_vars(&t);
    assert!(!all.contains(&f));
    assert_eq!(fresh_name(&"q".to_string(), &t, &r), "q");
}

#[test]
fn capture_is_avoided_under_nested_binders() {
    // substituting x for y under λx must rename the binder
    let t = abs("x", abs("z", app(var("y"), var("x"))));
    let s = fun::eval::substitute(&t, "y", &var("x"));
    assert_eq!(s, abs("x_1", abs("z", app(var("x"), var("x_1")))));
    // a shadowing binder stops the substitution
    let u = abs("y", var("y"));
    assert_eq!(fun::eval::substitute(&u, "y", &i(3)), abs("y", var("y")));
}

#[test]
fn pretty_print_forms() {
    assert_eq!(pretty_print(&abs("x", app(var("x"), var("y")))), "(λx. (x y))");
    assert_eq!(pretty_print(&ifte(var("c"), i(-12), b(false))), "(if c then -12 else false)");
    assert_eq!(pretty_print(&eq(i(0), b(true))), "(0 == true)");
    assert_eq!(pretty_print(&i(i64::MIN)), "-9223372036854775808");
    assert_eq!(pretty_print(&mul(i(1), sub(i(2), div(i(3), i(4))))), "(1 * (2 - (3 / 4)))");
}

#[test]
fn pretty_output_parses_back() {
    let t = abs("x", ifte(lt(var("x"), i(10)), app(var("f"), var("x")), gt(var("x"), i(3))));
    let text = pretty_print(&t);
    let (rest, parsed) = parse_expression(&text).unwrap();
    assert_eq!(rest, "");
    assert_eq!(parsed, t);
}

#[test]
fn renamed_binder_may_take_the_target_name() {
    // the binder p clashes with the free p of the replacement and becomes p_1, the very
    // name being substituted, so the renamed occurrence is replaced as well
    let t = abs("p", var("p"));
    let s = fun::eval::substitute(&t, "p_1", &var("p"));
    assert_eq!(s, abs("p_1", var("p")));
}

#[test]
fn evaluating_again_under_bindings_can_differ() {
    let mut env = Env::new();
    env.insert("x".to_string(), var("y"));
    env.insert("y".to_string(), i(1));
    let v = eval(&env, &var("x")).unwrap();
    assert_eq!(v, var("y"));
    assert_eq!(eval(&env, &v).unwrap(), i(1));
}

#[test]
fn deeply_nested_parentheses_parse() {
    let depth = 12;
    let mut text = String::from("1");
    let mut expected = i(1);
    for k in 0..depth {
        text = format!("({} + {})", text, k);
        expected = add(expected, i(k));
    }
    let (rest, term) = parse_expression(&text).unwrap();
    assert_eq!(rest, "");
    assert_eq!(term, expected);
    assert_eq!(eval(&empty_env(), &term).unwrap(), i(1 + (0..depth).sum::<i64>()));
}
