use vstd::prelude::*;
use crate::ast::{Expression, Term};
use crate::eval::{
    value_of, lookup_var, lookup_fun, outcome, Failure, VarBinding, FunBinding,
};
use crate::parser::program;
use crate::program::{Step, term_at};

verus! {

/// An expression built from number literals and the arithmetic operators alone.
pub open spec fn is_arithmetic(e: Expression) -> bool
    decreases e,
{
    match e {
        Expression::Number(_) => true,
        Expression::Negation(a) => is_arithmetic(*a),
        Expression::Add(a, b) => is_arithmetic(*a) && is_arithmetic(*b),
        Expression::Subtract(a, b) => is_arithmetic(*a) && is_arithmetic(*b),
        Expression::Multiply(a, b) => is_arithmetic(*a) && is_arithmetic(*b),
        Expression::Divide(a, b) => is_arithmetic(*a) && is_arithmetic(*b),
        _ => false,
    }
}

/// The fully parenthesised arithmetic term that an arithmetic expression writes.
pub open spec fn as_term(e: Expression) -> Term
    decreases e,
{
    match e {
        Expression::Number(d) => Term::Literal(d@),
        Expression::Negation(a) => Term::Negation(Box::new(as_term(*a))),
        Expression::Add(a, b) => Term::Add(Box::new(as_term(*a)), Box::new(as_term(*b))),
        Expression::Subtract(a, b) => Term::Subtract(Box::new(as_term(*a)), Box::new(as_term(*b))),
        Expression::Multiply(a, b) => Term::Multiply(Box::new(as_term(*a)), Box::new(as_term(*b))),
        Expression::Divide(a, b) => Term::Divide(Box::new(as_term(*a)), Box::new(as_term(*b))),
        _ => Term::Literal(seq![]),
    }
}

/// An arithmetic expression evaluates, in any scopes, to exactly the term it
/// writes: each operator applied to its own operands, as the tree groups them.
pub proof fn arithmetic_denotes_itself(
    e: Expression,
    vars: Seq<VarBinding>,
    funs: Seq<FunBinding>,
    fuel: nat,
)
    requires
        is_arithmetic(e),
    ensures
        value_of(e, vars, funs, fuel) == Ok::<Term, Failure>(as_term(e)),
    decreases e,
{
    match e {
        Expression::Number(_) => {},
        Expression::Negation(a) => {
            arithmetic_denotes_itself(*a, vars, funs, fuel);
        },
        Expression::Add(a, b) | Expression::Subtract(a, b) | Expression::Multiply(a, b)
        | Expression::Divide(a, b) => {
            arithmetic_denotes_itself(*a, vars, funs, fuel);
            arithmetic_denotes_itself(*b, vars, funs, fuel);
        },
        _ => {},
    }
}

/// A variable bound by `let` is visible only in the rest of the declaration:
/// its own right-hand side cannot see it, and with no outer binding a
/// reference there fails as an undefined variable.
pub proof fn let_binding_not_visible_in_its_rhs(
    name: String,
    rest: Expression,
    vars: Seq<VarBinding>,
    funs: Seq<FunBinding>,
    fuel: nat,
)
    requires
        lookup_var(vars, name@) is None,
    ensures
        value_of(
            Expression::Let {
                name: name,
                rhs: Box::new(Expression::Variable(name)),
                rest: Box::new(rest),
            },
            vars,
            funs,
            fuel,
        ) == Err::<Term, Failure>(Failure::UndefinedVariable(name@)),
{
    assert(value_of(Expression::Variable(name), vars, funs, fuel) == Err::<Term, Failure>(
        Failure::UndefinedVariable(name@),
    ));
}

/// A `let` evaluates the rest of the declaration with its binding added and
/// nothing else changed.
pub proof fn let_scopes_its_rest(
    name: String,
    rhs: Expression,
    rest: Expression,
    vars: Seq<VarBinding>,
    funs: Seq<FunBinding>,
    fuel: nat,
    t: Term,
)
    requires
        value_of(rhs, vars, funs, fuel) == Ok::<Term, Failure>(t),
    ensures
        value_of(
            Expression::Let { name: name, rhs: Box::new(rhs), rest: Box::new(rest) },
            vars,
            funs,
            fuel,
        ) == value_of(rest, vars.push((name@, t)), funs, fuel),
{
}

/// The innermost binding of a name is the one that is found; once it is
/// gone, the binding it shadowed is found again.
pub proof fn innermost_binding_wins(vars: Seq<VarBinding>, name: Seq<char>, outer: Term, inner: Term)
    ensures
        lookup_var(vars.push((name, outer)).push((name, inner)), name) == Some(inner),
        lookup_var(vars.push((name, outer)).push((name, inner)).drop_last(), name) == Some(outer),
{
    assert(vars.push((name, outer)).push((name, inner)).drop_last() =~= vars.push((name, outer)));
}

/// A name that is not bound fails as an undefined variable.
pub proof fn unbound_variable_fails(name: String, vars: Seq<VarBinding>, funs: Seq<FunBinding>, fuel: nat)
    requires
        lookup_var(vars, name@) is None,
    ensures
        value_of(Expression::Variable(name), vars, funs, fuel) == Err::<Term, Failure>(
            Failure::UndefinedVariable(name@),
        ),
{
}

/// Calling a function with another number of arguments than it declares
/// fails, naming the declared and the given count, before any argument is
/// evaluated.
pub proof fn wrong_arity_fails(
    name: String,
    args: Vec<Expression>,
    vars: Seq<VarBinding>,
    funs: Seq<FunBinding>,
    fuel: nat,
    params: Seq<Seq<char>>,
    body: Expression,
)
    requires
        lookup_fun(funs, name@) == Some((params, body)),
        params.len() != args@.len(),
    ensures
        value_of(Expression::Call(name, args), vars, funs, fuel) == Err::<Term, Failure>(
            Failure::WrongArity(name@, params.len(), args@.len()),
        ),
{
}

/// Calling a name that no function in scope has fails as an undefined function.
pub proof fn undefined_function_fails(
    name: String,
    args: Vec<Expression>,
    vars: Seq<VarBinding>,
    funs: Seq<FunBinding>,
    fuel: nat,
)
    requires
        lookup_fun(funs, name@) is None,
    ensures
        value_of(Expression::Call(name, args), vars, funs, fuel) == Err::<Term, Failure>(
            Failure::UndefinedFunction(name@),
        ),
{
}

/// Two evaluations of one tree from empty scopes agree: any two programs
/// that `evaluate` may hand back compute the same term.
pub proof fn evaluation_is_repeatable(e: Expression, p1: Seq<Step>, i1: int, p2: Seq<Step>, i2: int)
    requires
        outcome(e) == Ok::<Term, Failure>(term_at(p1, i1)),
        outcome(e) == Ok::<Term, Failure>(term_at(p2, i2)),
    ensures
        term_at(p1, i1) == term_at(p2, i2),
{
}

/// Parsing one text twice gives the same tree: any two trees that `parse`
/// may hand back for it have the same syntax.
pub proof fn parsing_is_repeatable(src: Seq<char>, e1: Expression, e2: Expression)
    requires
        program(src) == Some(e1@),
        program(src) == Some(e2@),
    ensures
        e1@ == e2@,
{
}

} // verus!
