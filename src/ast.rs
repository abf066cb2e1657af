use vstd::prelude::*;

verus! {

/// The language's syntax tree. Every construct is an expression, and each
/// node owns its sub-expressions.
///
/// A number literal keeps the decimal digits it was written with; turning
/// them into a machine number is left to whoever runs the computation.
#[derive(Debug, PartialEq)]
pub enum Expression {
    Number(String),
    Variable(String),
    Negation(Box<Expression>),
    Add(Box<Expression>, Box<Expression>),
    Subtract(Box<Expression>, Box<Expression>),
    Multiply(Box<Expression>, Box<Expression>),
    Divide(Box<Expression>, Box<Expression>),
    Call(String, Vec<Expression>),
    Let { name: String, rhs: Box<Expression>, rest: Box<Expression> },
    Function { name: String, arguments: Vec<String>, body: Box<Expression>, rest: Box<Expression> },
}

/// A closed arithmetic term over number literals: what an expression
/// denotes once every variable and call has been resolved.
pub ghost enum Term {
    Literal(Seq<char>),
    Negation(Box<Term>),
    Add(Box<Term>, Box<Term>),
    Subtract(Box<Term>, Box<Term>),
    Multiply(Box<Term>, Box<Term>),
    Divide(Box<Term>, Box<Term>),
}

/// The mathematical form of an `Expression`: names and literals as
/// character sequences, arguments as a sequence.
pub ghost enum Syntax {
    Number(Seq<char>),
    Variable(Seq<char>),
    Negation(Box<Syntax>),
    Add(Box<Syntax>, Box<Syntax>),
    Subtract(Box<Syntax>, Box<Syntax>),
    Multiply(Box<Syntax>, Box<Syntax>),
    Divide(Box<Syntax>, Box<Syntax>),
    Call(Seq<char>, Seq<Syntax>),
    Let(Seq<char>, Box<Syntax>, Box<Syntax>),
    Function(Seq<char>, Seq<Seq<char>>, Box<Syntax>, Box<Syntax>),
}

pub open spec fn syntax_of(e: Expression) -> Syntax
    decreases e,
{
    match e {
        Expression::Number(d) => Syntax::Number(d@),
        Expression::Variable(n) => Syntax::Variable(n@),
        Expression::Negation(a) => Syntax::Negation(Box::new(syntax_of(*a))),
        Expression::Add(a, b) => Syntax::Add(Box::new(syntax_of(*a)), Box::new(syntax_of(*b))),
        Expression::Subtract(a, b) => Syntax::Subtract(Box::new(syntax_of(*a)), Box::new(syntax_of(*b))),
        Expression::Multiply(a, b) => Syntax::Multiply(Box::new(syntax_of(*a)), Box::new(syntax_of(*b))),
        Expression::Divide(a, b) => Syntax::Divide(Box::new(syntax_of(*a)), Box::new(syntax_of(*b))),
        Expression::Call(n, args) => Syntax::Call(n@, syntax_list(args@)),
        Expression::Let { name, rhs, rest } => Syntax::Let(
            name@,
            Box::new(syntax_of(*rhs)),
            Box::new(syntax_of(*rest)),
        ),
        Expression::Function { name, arguments, body, rest } => Syntax::Function(
            name@,
            names_of(arguments@),
            Box::new(syntax_of(*body)),
            Box::new(syntax_of(*rest)),
        ),
    }
}

/// The names, as character sequences.
pub open spec fn names_of(v: Seq<String>) -> Seq<Seq<char>> {
    v.map_values(|a: String| a@)
}

pub open spec fn syntax_list(s: Seq<Expression>) -> Seq<Syntax>
    decreases s,
{
    if s.len() == 0 {
        seq![]
    } else {
        syntax_list(s.drop_last()).push(syntax_of(s.last()))
    }
}

impl View for Expression {
    type V = Syntax;

    open spec fn view(&self) -> Syntax {
        syntax_of(*self)
    }
}

} // verus!
