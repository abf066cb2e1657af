use exprlang::ast::Expression;
use exprlang::eval::{evaluate, EvalError};
use exprlang::parser::parser;
use exprlang::program::Step;

fn run(steps: &[Step], result: usize) -> f64 {
    let mut values: Vec<f64> = Vec::new();
    for step in steps {
        let v = match step {
            Step::Literal(d) => d.parse::<f64>().unwrap(),
            Step::Negation(a) => -values[*a],
            Step::Add(a, b) => values[*a] + values[*b],
            Step::Subtract(a, b) => values[*a] - values[*b],
            Step::Multiply(a, b) => values[*a] * values[*b],
            Step::Divide(a, b) => values[*a] / values[*b],
        };
        values.push(v);
    }
    values[result]
}

fn eval_src(src: &str) -> Result<f64, EvalError> {
    let tree = match parser().parse(src) {
        Ok(tree) => tree,
        Err(errors) => panic!("Parse error: {:?}", errors),
    };
    evaluate(&tree).map(|c| run(&c.steps, c.result))
}

fn assert_eval(src: &str, expected: f64) {
    match eval_src(src) {
        Ok(result) => assert_eq!(result, expected),
        Err(err) => panic!("Evaluation error: {:?}", err),
    }
}

#[test]
fn arithmetic() {
    assert_eval("3 * 4 + 2", 14.0);
    assert_eval("3 * (4 + 2)", 18.0);
    assert_eval("-4 + 2", -2.0);
    assert_eval("4 + -2", 2.0);
    assert_eval("-(4 + 2)", -6.0);
}

#[test]
fn sums_group_from_the_left() {
    assert_eval("2 + 3 - 7 + 5", 3.0);
    assert_eval("8 / 4 / 2", 1.0);
    assert_eval("10 - 4 - 3", 3.0);
}

#[test]
fn let_binds_in_its_rest() {
    assert_eval("let x = 5; x + 1", 6.0);
}

#[test]
fn let_variable_is_not_visible_in_its_rhs() {
    assert_eq!(
        eval_src("let x = x; 1"),
        Err(EvalError::UndefinedVariable("x".to_string()))
    );
}

#[test]
fn undefined_variable() {
    assert_eq!(eval_src("y + 1"), Err(EvalError::UndefinedVariable("y".to_string())));
}

#[test]
fn function_call() {
    assert_eval("fn double x = x * 2; double(3)", 6.0);
    assert_eval("fn add a b = a + b; add(1, 2,)", 3.0);
}

#[test]
fn function_with_wrong_arity() {
    assert_eq!(
        eval_src("fn double x = x * 2; double()"),
        Err(EvalError::WrongArity { name: "double".to_string(), expected: 1, found: 0 })
    );
    assert_eq!(
        eval_src("fn double x = x * 2; double(1, 2)"),
        Err(EvalError::WrongArity { name: "double".to_string(), expected: 1, found: 2 })
    );
}

#[test]
fn undefined_function() {
    assert_eq!(eval_src("f(1)"), Err(EvalError::UndefinedFunction("f".to_string())));
}

#[test]
fn parameters_are_not_visible_after_the_call() {
    assert_eq!(
        eval_src("fn id a = a; id(1) + a"),
        Err(EvalError::UndefinedVariable("a".to_string()))
    );
}

#[test]
fn shadowing_prefers_the_innermost_binding() {
    assert_eval("let x = 1; let x = 2; x", 2.0);
    assert_eval("let x = 1; fn f x = x * 10; f(2) + x", 21.0);
    assert_eval("fn f = 1; fn f = 2; f()", 2.0);
}

#[test]
fn failing_argument_aborts_the_call() {
    assert_eq!(
        eval_src("fn f a b = a; f(1, z)"),
        Err(EvalError::UndefinedVariable("z".to_string()))
    );
}

#[test]
fn unbounded_recursion_is_cut_off() {
    assert_eq!(eval_src("fn f x = f(x); f(1)"), Err(EvalError::TooDeep));
}

#[test]
fn division_by_zero_is_not_an_error() {
    assert_eq!(eval_src("1 / 0"), Ok(f64::INFINITY));
    assert!(eval_src("0 / 0").unwrap().is_nan());
}

#[test]
fn evaluating_twice_gives_the_same_result() {
    let tree = parser().parse("fn f x = x * x; let y = f(3); y - 1").unwrap();
    let a = evaluate(&tree).unwrap();
    let b = evaluate(&tree).unwrap();
    assert_eq!(run(&a.steps, a.result), 8.0);
    assert_eq!(run(&a.steps, a.result), run(&b.steps, b.result));
}

#[test]
fn arithmetic_matches_native_evaluation() {
    assert_eval("1 + 2 * 3 - 4 / 8", (1.0 + (2.0 * 3.0)) - (4.0 / 8.0));
    assert_eval("-(2 - 5) * --3", (-(2.0 - 5.0)) * (-(-3.0)));
}

#[test]
fn evaluation_of_a_built_tree() {
    let tree = Expression::Let {
        name: "x".to_string(),
        rhs: Box::new(Expression::Number("7".to_string())),
        rest: Box::new(Expression::Negation(Box::new(Expression::Variable("x".to_string())))),
    };
    let c = evaluate(&tree).unwrap();
    assert_eq!(run(&c.steps, c.result), -7.0);
}
