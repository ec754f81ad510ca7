use fun::eval::eval;
use fun::parser::{parse_expression, parse_main_program, parse_program, ParseError};
use fun::term::{abs, app, i, ifte, var};

#[test]
fn test_abs() {
    let input = "(λx. (x y))";
    let (_, term) = parse_expression(input).unwrap();
    assert_eq!(abs("x", app(var("x"), var("y"))), term);
}

#[test]
fn test_if() {
    let input = "(λx. (if x then y  else 0))";
    let (_, term) = parse_expression(input).unwrap();
    assert_eq!(abs("x", ifte(var("x"), var("y"), i(0))), term,);
}

#[test]
fn test_app_app() {
    let input = "((x y) z)";
    let (_, term) = parse_expression(input).unwrap();
    assert_eq!(app(app(var("x"), var("y")), var("z")), term,);
}

#[test]
fn test_factorial() {
    let input = r#"
        fac = (λn. (if (n == 0) then 1 else (n * (fac (n - 1)))));
        main = (fac 5);
    "#;

    let prog = parse_main_program(input).unwrap();
    let result = eval(&prog.env, &prog.main).unwrap();
    assert_eq!(i(120), result);
}

#[test]
fn test_fibonacci() {
    let input = r#"
        fib = (λn. (if (n < 2) then n else ((fib (n - 1)) + (fib (n - 2)))));
        main = (fib 10);
    "#;

    let prog = parse_main_program(input).unwrap();
    let result = eval(&prog.env, &prog.main).unwrap();
    assert_eq!(i(55), result);
}

#[test]
fn parse_leaves_rest_of_input() {
    let (rest, term) = parse_expression("x y").unwrap();
    assert_eq!(term, var("x"));
    assert_eq!(rest, " y");
}

#[test]
fn parse_literals_and_keywords() {
    assert_eq!(parse_expression("true").unwrap().1, fun::term::b(true));
    assert_eq!(parse_expression("false").unwrap().1, fun::term::b(false));
    assert_eq!(parse_expression("42").unwrap().1, i(42));
    assert_eq!(parse_expression("x_1y").unwrap().1, var("x_1y"));
    assert_eq!(parse_expression("then"), Err(ParseError::Syntax));
    assert_eq!(parse_expression("99999999999999999999"), Err(ParseError::Syntax));
    assert_eq!(parse_expression("9223372036854775807").unwrap().1, i(i64::MAX));
}

#[test]
fn parse_every_operator() {
    let ops = ["+", "-", "*", "/", "==", "<", ">"];
    let builders: [fn(fun::term::Term, fun::term::Term) -> fun::term::Term; 7] = [
        fun::term::add,
        fun::term::sub,
        fun::term::mul,
        fun::term::div,
        fun::term::eq,
        fun::term::lt,
        fun::term::gt,
    ];
    for (op, build) in ops.iter().zip(builders.iter()) {
        let text = format!("( a {} 1 )", op);
        let (rest, term) = parse_expression(&text).unwrap();
        assert_eq!(term, build(var("a"), i(1)));
        assert_eq!(rest, "");
    }
}

#[test]
fn parse_nested_parentheses() {
    let (_, term) = parse_expression("((((a b) c) d) e)").unwrap();
    let expected = app(app(app(app(var("a"), var("b")), var("c")), var("d")), var("e"));
    assert_eq!(term, expected);
}

#[test]
fn parse_unbalanced_parentheses_fails() {
    assert_eq!(parse_expression("((a b)").map(|(_, t)| t), Err(ParseError::Syntax));
    assert!(parse_expression(")").is_err());
}

#[test]
fn program_errors() {
    assert_eq!(parse_main_program("f = x;").err(), Some(ParseError::MissingMain));
    assert_eq!(parse_main_program("main = x; ?").err(), Some(ParseError::TrailingInput));
    assert_eq!(parse_main_program("main x;").err(), Some(ParseError::Syntax));
    assert_eq!(parse_main_program("").err(), Some(ParseError::Syntax));
}

#[test]
fn program_later_binding_wins() {
    let prog = parse_main_program("main = 1; main = 2;").unwrap();
    assert_eq!(prog.main, i(2));
}

#[test]
fn program_keeps_bindings_in_order() {
    let (rest, bs) = parse_program(" a = 1 ;b=(x y);rest").unwrap();
    assert_eq!(rest, "rest");
    assert_eq!(bs.len(), 2);
    assert_eq!(bs[0].0, "a");
    assert_eq!(bs[0].1, i(1));
    assert_eq!(bs[1].0, "b");
    assert_eq!(bs[1].1, app(var("x"), var("y")));
}
