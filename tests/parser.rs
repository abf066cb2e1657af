use exprlang::ast::Expression;
use exprlang::parser::parser;

fn num(v: f64) -> Expression {
    Expression::Number(format!("{}", v))
}

fn var(name: &str) -> Expression {
    Expression::Variable(name.to_string())
}

#[test]
fn simple_number() {
    let src = "123";
    let result = parser().parse(src).expect("Parse error");
    assert_eq!(result, num(123.0));
}

#[test]
fn simple_negation() {
    let src = "-123";
    let result = parser().parse(src).expect("Parse error");
    assert_eq!(result, Expression::Negation(Box::new(num(123.0))));
}

#[test]
fn simple_negation_of_negation() {
    let src = "--123";
    let result = parser().parse(src).expect("Parse error");
    assert_eq!(
        result,
        Expression::Negation(Box::new(Expression::Negation(Box::new(num(123.0)))))
    );
}

#[test]
fn simple_addition() {
    let src = "1 + 2";
    let result = parser().parse(src).expect("Parse error");
    assert_eq!(result, Expression::Add(Box::new(num(1.0)), Box::new(num(2.0))));
}

#[test]
fn simple_subtraction() {
    let src = "1 - 2";
    let result = parser().parse(src).expect("Parse error");
    assert_eq!(result, Expression::Subtract(Box::new(num(1.0)), Box::new(num(2.0))));
}

#[test]
fn simple_multiplication() {
    let src = "1 * 2";
    let result = parser().parse(src).expect("Parse error");
    assert_eq!(result, Expression::Multiply(Box::new(num(1.0)), Box::new(num(2.0))));
}

#[test]
fn simple_division() {
    let src = "1 / 2";
    let result = parser().parse(src).expect("Parse error");
    assert_eq!(result, Expression::Divide(Box::new(num(1.0)), Box::new(num(2.0))));
}

#[test]
fn add_and_subtract() {
    let src = "2 + 3 - 7 + 5";
    let result = parser().parse(src).expect("Parse error");
    assert_eq!(
        result,
        Expression::Add(
            Box::new(Expression::Subtract(
                Box::new(Expression::Add(Box::new(num(2.0)), Box::new(num(3.0)))),
                Box::new(num(7.0))
            )),
            Box::new(num(5.0))
        )
    );
}

#[test]
fn product_binds_tighter_than_sum() {
    let result = parser().parse("3 * 4 + 2").expect("Parse error");
    assert_eq!(
        result,
        Expression::Add(
            Box::new(Expression::Multiply(Box::new(num(3.0)), Box::new(num(4.0)))),
            Box::new(num(2.0))
        )
    );
}

#[test]
fn division_groups_from_the_left() {
    let result = parser().parse("8 / 4 / 2").expect("Parse error");
    assert_eq!(
        result,
        Expression::Divide(
            Box::new(Expression::Divide(Box::new(num(8.0)), Box::new(num(4.0)))),
            Box::new(num(2.0))
        )
    );
}

#[test]
fn let_declaration() {
    let result = parser().parse("let x = 5; x + 1").expect("Parse error");
    assert_eq!(
        result,
        Expression::Let {
            name: "x".to_string(),
            rhs: Box::new(num(5.0)),
            rest: Box::new(Expression::Add(Box::new(var("x")), Box::new(num(1.0)))),
        }
    );
}

#[test]
fn function_declaration_and_call() {
    let result = parser().parse("fn add a b = a + b; add(1, 2,)").expect("Parse error");
    assert_eq!(
        result,
        Expression::Function {
            name: "add".to_string(),
            arguments: vec!["a".to_string(), "b".to_string()],
            body: Box::new(Expression::Add(Box::new(var("a")), Box::new(var("b")))),
            rest: Box::new(Expression::Call(
                "add".to_string(),
                vec![num(1.0), num(2.0)]
            )),
        }
    );
}

#[test]
fn call_without_arguments() {
    let result = parser().parse("f()").expect("Parse error");
    assert_eq!(result, Expression::Call("f".to_string(), vec![]));
}

#[test]
fn keyword_alone_is_a_variable() {
    let result = parser().parse("let").expect("Parse error");
    assert_eq!(result, var("let"));
}

#[test]
fn keyword_prefix_is_an_identifier() {
    let result = parser().parse("letter + 1").expect("Parse error");
    assert_eq!(result, Expression::Add(Box::new(var("letter")), Box::new(num(1.0))));
}

#[test]
fn whitespace_is_insignificant() {
    let a = parser().parse("  ( 1+2 ) *3 ").expect("Parse error");
    let b = parser().parse("(1 + 2) * 3").expect("Parse error");
    assert_eq!(a, b);
}

#[test]
fn parsing_twice_gives_the_same_tree() {
    let src = "fn f x = x * 2; let y = f(3); -y + 1";
    assert_eq!(parser().parse(src).expect("Parse error"), parser().parse(src).expect("Parse error"));
}

#[test]
fn trailing_input_is_an_error() {
    let errors = parser().parse("1 + 2 )").unwrap_err();
    assert!(!errors.is_empty());
    assert_eq!(errors[0].position, 6);
    assert_eq!(errors[0].found, Some(')'));
}

#[test]
fn missing_operand_is_an_error() {
    let errors = parser().parse("1 +").unwrap_err();
    assert!(!errors.is_empty());
    assert!(errors.iter().all(|e| e.position <= 3));
}

#[test]
fn leading_zero_is_an_error() {
    assert!(parser().parse("012").is_err());
    assert_eq!(parser().parse("0").expect("Parse error"), num(0.0));
}

#[test]
fn empty_input_is_an_error() {
    let errors = parser().parse("").unwrap_err();
    assert_eq!(errors[0].position, 0);
    assert_eq!(errors[0].found, None);
}

#[test]
fn unclosed_call_is_an_error() {
    assert!(parser().parse("f(1, 2").is_err());
    assert!(parser().parse("f(,)").is_err());
}
