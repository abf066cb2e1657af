use vstd::prelude::*;
use crate::ast::{Expression, Term, names_of};
use crate::program::{Step, program_wf, term_at, extends, lemma_term_at_extends};

verus! {

/// Why an evaluation failed.
#[derive(Debug, PartialEq)]
pub enum EvalError {
    /// No variable of this name is in scope.
    UndefinedVariable(String),
    /// No function of this name is in scope.
    UndefinedFunction(String),
    /// The function was called with another number of arguments than it declares.
    WrongArity { name: String, expected: usize, found: usize },
    /// Calls nested deeper than the evaluation's budget allows.
    TooDeep,
}

/// The mathematical form of an `EvalError`.
pub ghost enum Failure {
    UndefinedVariable(Seq<char>),
    UndefinedFunction(Seq<char>),
    WrongArity(Seq<char>, nat, nat),
    TooDeep,
}

impl View for EvalError {
    type V = Failure;

    open spec fn view(&self) -> Failure {
        match self {
            EvalError::UndefinedVariable(n) => Failure::UndefinedVariable(n@),
            EvalError::UndefinedFunction(n) => Failure::UndefinedFunction(n@),
            EvalError::WrongArity { name, expected, found } => Failure::WrongArity(
                name@,
                *expected as nat,
                *found as nat,
            ),
            EvalError::TooDeep => Failure::TooDeep,
        }
    }
}

/// A variable binding as the evaluator sees it: a name and the term it stands for.
pub type VarBinding = (Seq<char>, Term);

/// A function binding: its name, its parameter names and its body.
pub type FunBinding = (Seq<char>, Seq<Seq<char>>, Expression);

/// The term bound to `name` by the most recent binding of that name.
pub open spec fn lookup_var(vars: Seq<VarBinding>, name: Seq<char>) -> Option<Term>
    decreases vars.len(),
{
    if vars.len() == 0 {
        None
    } else if vars.last().0 == name {
        Some(vars.last().1)
    } else {
        lookup_var(vars.drop_last(), name)
    }
}

/// The parameters and body of the most recent function named `name`.
pub open spec fn lookup_fun(funs: Seq<FunBinding>, name: Seq<char>) -> Option<(Seq<Seq<char>>, Expression)>
    decreases funs.len(),
{
    if funs.len() == 0 {
        None
    } else if funs.last().0 == name {
        Some((funs.last().1, funs.last().2))
    } else {
        lookup_fun(funs.drop_last(), name)
    }
}

/// Bindings of each parameter to the term in the same place.
pub open spec fn bind(params: Seq<Seq<char>>, terms: Seq<Term>) -> Seq<VarBinding> {
    Seq::new(params.len(), |i: int| (params[i], terms[i]))
}

pub open spec fn lift1(r: Result<Term, Failure>, f: spec_fn(Term) -> Term) -> Result<Term, Failure> {
    match r {
        Ok(a) => Ok(f(a)),
        Err(e) => Err(e),
    }
}

pub open spec fn lift2(
    ra: Result<Term, Failure>,
    rb: Result<Term, Failure>,
    f: spec_fn(Term, Term) -> Term,
) -> Result<Term, Failure> {
    match ra {
        Err(e) => Err(e),
        Ok(a) => match rb {
            Err(e) => Err(e),
            Ok(b) => Ok(f(a, b)),
        },
    }
}

/// What `e` evaluates to under the given scopes, with at most `fuel` calls
/// nested inside one another. Sub-expressions are evaluated left to right
/// and the first failure is the result.
pub open spec fn value_of(
    e: Expression,
    vars: Seq<VarBinding>,
    funs: Seq<FunBinding>,
    fuel: nat,
) -> Result<Term, Failure>
    decreases fuel, e,
{
    match e {
        Expression::Number(d) => Ok(Term::Literal(d@)),
        Expression::Variable(name) => match lookup_var(vars, name@) {
            Some(t) => Ok(t),
            None => Err(Failure::UndefinedVariable(name@)),
        },
        Expression::Negation(a) => lift1(
            value_of(*a, vars, funs, fuel),
            |x: Term| Term::Negation(Box::new(x)),
        ),
        Expression::Add(a, b) => lift2(
            value_of(*a, vars, funs, fuel),
            value_of(*b, vars, funs, fuel),
            |x: Term, y: Term| Term::Add(Box::new(x), Box::new(y)),
        ),
        Expression::Subtract(a, b) => lift2(
            value_of(*a, vars, funs, fuel),
            value_of(*b, vars, funs, fuel),
            |x: Term, y: Term| Term::Subtract(Box::new(x), Box::new(y)),
        ),
        Expression::Multiply(a, b) => lift2(
            value_of(*a, vars, funs, fuel),
            value_of(*b, vars, funs, fuel),
            |x: Term, y: Term| Term::Multiply(Box::new(x), Box::new(y)),
        ),
        Expression::Divide(a, b) => lift2(
            value_of(*a, vars, funs, fuel),
            value_of(*b, vars, funs, fuel),
            |x: Term, y: Term| Term::Divide(Box::new(x), Box::new(y)),
        ),
        Expression::Let { name, rhs, rest } => match value_of(*rhs, vars, funs, fuel) {
            Err(f) => Err(f),
            Ok(t) => value_of(*rest, vars.push((name@, t)), funs, fuel),
        },
        Expression::Function { name, arguments, body, rest } => value_of(
            *rest,
            vars,
            funs.push((name@, names_of(arguments@), *body)),
            fuel,
        ),
        Expression::Call(name, args) => match lookup_fun(funs, name@) {
            None => Err(Failure::UndefinedFunction(name@)),
            Some(def) => if def.0.len() != args.len() {
                Err(Failure::WrongArity(name@, def.0.len(), args.len() as nat))
            } else if fuel == 0 {
                Err(Failure::TooDeep)
            } else {
                match values_of(args@, vars, funs, fuel) {
                    Err(f) => Err(f),
                    Ok(ts) => value_of(def.1, vars + bind(def.0, ts), funs, (fuel - 1) as nat),
                }
            },
        },
    }
}

/// Evaluates `args` from left to right; the first failure is the result.
pub open spec fn values_of(
    args: Seq<Expression>,
    vars: Seq<VarBinding>,
    funs: Seq<FunBinding>,
    fuel: nat,
) -> Result<Seq<Term>, Failure>
    decreases fuel, args,
{
    if args.len() == 0 {
        Ok(seq![])
    } else {
        match values_of(args.drop_last(), vars, funs, fuel) {
            Err(f) => Err(f),
            Ok(ts) => match value_of(args.last(), vars, funs, fuel) {
                Err(f) => Err(f),
                Ok(t) => Ok(ts.push(t)),
            },
        }
    }
}


/// A variable in scope: its name, and the instruction of the program that
/// computes its value.
pub struct ScopedVariable<'a> {
    pub name: &'a String,
    pub value: usize,
}

/// A function in scope, borrowed from the definition that introduced it.
pub struct ScopedFunction<'a> {
    pub name: &'a String,
    pub arguments: &'a Vec<String>,
    pub body: &'a Expression,
}

/// The variable scope as bindings of names to terms, read against program `p`.
pub open spec fn vars_view(p: Seq<Step>, vars: Seq<ScopedVariable>) -> Seq<VarBinding> {
    vars.map_values(|v: ScopedVariable| (v.name@, term_at(p, v.value as int)))
}

/// Every variable's value is an instruction of `p`.
pub open spec fn vars_in(p: Seq<Step>, vars: Seq<ScopedVariable>) -> bool {
    forall|i: int| 0 <= i < vars.len() ==> #[trigger] vars[i].value < p.len()
}

pub open spec fn funs_view(funs: Seq<ScopedFunction>) -> Seq<FunBinding> {
    funs.map_values(|f: ScopedFunction| (f.name@, names_of(f.arguments@), *f.body))
}

/// Reading the scope against a longer program gives the same bindings.
proof fn lemma_vars_view_extends(p: Seq<Step>, q: Seq<Step>, vars: Seq<ScopedVariable>)
    requires
        extends(q, p),
        vars_in(p, vars),
    ensures
        vars_view(q, vars) == vars_view(p, vars),
        vars_in(q, vars),
{
    assert forall|i: int| 0 <= i < vars.len() implies vars_view(q, vars)[i] == vars_view(p, vars)[i] by {
        lemma_term_at_extends(p, q, vars[i].value as int);
    }
    assert(vars_view(q, vars) =~= vars_view(p, vars));
}


proof fn lemma_extends_trans(p: Seq<Step>, q: Seq<Step>, r: Seq<Step>)
    requires
        extends(q, p),
        extends(r, q),
    ensures
        extends(r, p),
{
    assert(r.subrange(0, p.len() as int) =~= q.subrange(0, p.len() as int));
}

proof fn lemma_lookup_var_found(vars: Seq<VarBinding>, name: Seq<char>, k: int)
    requires
        0 <= k < vars.len(),
        vars[k].0 == name,
        forall|m: int| k < m < vars.len() ==> #[trigger] vars[m].0 != name,
    ensures
        lookup_var(vars, name) == Some(vars[k].1),
    decreases vars.len(),
{
    if k < vars.len() - 1 {
        lemma_lookup_var_found(vars.drop_last(), name, k);
    }
}

proof fn lemma_lookup_var_missing(vars: Seq<VarBinding>, name: Seq<char>)
    requires
        forall|m: int| 0 <= m < vars.len() ==> #[trigger] vars[m].0 != name,
    ensures
        lookup_var(vars, name) == None::<Term>,
    decreases vars.len(),
{
    if vars.len() > 0 {
        lemma_lookup_var_missing(vars.drop_last(), name);
    }
}

proof fn lemma_lookup_fun_found(funs: Seq<FunBinding>, name: Seq<char>, k: int)
    requires
        0 <= k < funs.len(),
        funs[k].0 == name,
        forall|m: int| k < m < funs.len() ==> #[trigger] funs[m].0 != name,
    ensures
        lookup_fun(funs, name) == Some((funs[k].1, funs[k].2)),
    decreases funs.len(),
{
    if k < funs.len() - 1 {
        lemma_lookup_fun_found(funs.drop_last(), name, k);
    }
}

proof fn lemma_lookup_fun_missing(funs: Seq<FunBinding>, name: Seq<char>)
    requires
        forall|m: int| 0 <= m < funs.len() ==> #[trigger] funs[m].0 != name,
    ensures
        lookup_fun(funs, name) is None,
    decreases funs.len(),
{
    if funs.len() > 0 {
        lemma_lookup_fun_missing(funs.drop_last(), name);
    }
}

/// Once a prefix of the arguments fails, evaluating all of them fails the same way.
proof fn lemma_args_prefix_fails(
    args: Seq<Expression>,
    k: int,
    vars: Seq<VarBinding>,
    funs: Seq<FunBinding>,
    fuel: nat,
)
    requires
        0 <= k <= args.len(),
        values_of(args.subrange(0, k), vars, funs, fuel) is Err,
    ensures
        values_of(args, vars, funs, fuel) == values_of(args.subrange(0, k), vars, funs, fuel),
    decreases args.len(),
{
    if k < args.len() {
        assert(args.drop_last().subrange(0, k) =~= args.subrange(0, k));
        lemma_args_prefix_fails(args.drop_last(), k, vars, funs, fuel);
    } else {
        assert(args.subrange(0, k) =~= args);
    }
}

/// Appends `s` to the program and returns its index.
fn emit(program: &mut Vec<Step>, s: Step) -> (i: usize)
    requires
        program_wf(old(program)@),
        crate::program::refers_back(s, old(program)@.len() as int),
    ensures
        final(program)@ == old(program)@.push(s),
        i == old(program)@.len(),
        program_wf(final(program)@),
        extends(final(program)@, old(program)@),
{
    let i = program.len();
    program.push(s);
    proof {
        assert(program@.subrange(0, i as int) =~= old(program)@);
    }
    i
}

/// Evaluates `expr` in the given scopes, appending to `program` the
/// instructions that compute its value, and returns the index of the one that
/// holds it. At most `fuel` calls may be nested inside one another.
///
/// Both scopes are handed back as they came, whether evaluation succeeded or
/// failed; the instructions already in `program` are kept.
#[verifier::loop_isolation(false)]
pub fn eval<'a>(
    expr: &'a Expression,
    vars: &mut Vec<ScopedVariable<'a>>,
    functions: &mut Vec<ScopedFunction<'a>>,
    program: &mut Vec<Step>,
    fuel: u64,
) -> (r: Result<usize, EvalError>)
    requires
        program_wf(old(program)@),
        vars_in(old(program)@, old(vars)@),
    ensures
        final(vars)@ == old(vars)@,
        final(functions)@ == old(functions)@,
        program_wf(final(program)@),
        extends(final(program)@, old(program)@),
        match r {
            Ok(i) => i < final(program)@.len() && value_of(
                *expr,
                vars_view(old(program)@, old(vars)@),
                funs_view(old(functions)@),
                fuel as nat,
            ) == Ok::<Term, Failure>(term_at(final(program)@, i as int)),
            Err(e) => value_of(
                *expr,
                vars_view(old(program)@, old(vars)@),
                funs_view(old(functions)@),
                fuel as nat,
            ) == Err::<Term, Failure>(e@),
        },
    decreases fuel, expr, 1nat,
{
    let ghost p0 = program@;
    let ghost v0 = vars_view(program@, vars@);
    let ghost f0 = funs_view(functions@);
    proof {
        assert(program@.subrange(0, program@.len() as int) =~= program@);
    }
    match expr {
        Expression::Number(d) => {
            let i = emit(program, Step::Literal(d.clone()));
            Ok(i)
        },
        Expression::Variable(name) => {
            let mut k: usize = vars.len();
            while k > 0
                invariant
                    k <= vars.len(),
                    vars@ == old(vars)@,
                    program@ == p0,
                    functions@ == old(functions)@,
                    program_wf(p0),
                    extends(p0, p0),
                    vars_in(p0, vars@),
                    v0 == vars_view(p0, vars@),
                    forall|m: int| k <= m < vars.len() ==> #[trigger] vars@[m].name@ != name@,
                decreases k,
            {
                k = k - 1;
                if *vars[k].name == *name {
                    proof {
                        lemma_lookup_var_found(v0, name@, k as int);
                        assert(vars@[k as int].value < p0.len());
                    }
                    return Ok(vars[k].value);
                }
            }
            proof {
                lemma_lookup_var_missing(v0, name@);
            }
            Err(EvalError::UndefinedVariable(name.clone()))
        },
        Expression::Negation(a) => match eval(&**a, vars, functions, program, fuel) {
            Err(e) => Err(e),
            Ok(i) => {
                let ghost p1 = program@;
                let j = emit(program, Step::Negation(i));
                proof {
                    lemma_term_at_extends(p1, program@, i as int);
                    lemma_extends_trans(p0, p1, program@);
                }
                Ok(j)
            },
        },
        Expression::Add(a, b)
        | Expression::Subtract(a, b)
        | Expression::Multiply(a, b)
        | Expression::Divide(a, b) => match eval(&**a, vars, functions, program, fuel) {
            Err(e) => Err(e),
            Ok(i) => {
                let ghost p1 = program@;
                proof {
                    lemma_vars_view_extends(p0, p1, vars@);
                }
                match eval(&**b, vars, functions, program, fuel) {
                    Err(e) => {
                        proof {
                            lemma_extends_trans(p0, p1, program@);
                        }
                        Err(e)
                    },
                    Ok(j) => {
                        let ghost p2 = program@;
                        proof {
                            lemma_term_at_extends(p1, p2, i as int);
                            lemma_extends_trans(p0, p1, p2);
                        }
                        let s = match expr {
                            Expression::Add(..) => Step::Add(i, j),
                            Expression::Subtract(..) => Step::Subtract(i, j),
                            Expression::Multiply(..) => Step::Multiply(i, j),
                            _ => Step::Divide(i, j),
                        };
                        let k = emit(program, s);
                        proof {
                            lemma_term_at_extends(p2, program@, i as int);
                            lemma_term_at_extends(p2, program@, j as int);
                            lemma_extends_trans(p0, p2, program@);
                        }
                        Ok(k)
                    },
                }
            },
        },
        Expression::Let { name, rhs, rest } => match eval(&**rhs, vars, functions, program, fuel) {
            Err(e) => Err(e),
            Ok(i) => {
                let ghost p1 = program@;
                proof {
                    lemma_vars_view_extends(p0, p1, vars@);
                }
                vars.push(ScopedVariable { name, value: i });
                proof {
                    assert(vars_view(p1, vars@) =~= v0.push((name@, term_at(p1, i as int))));
                    assert(vars_in(p1, vars@));
                }
                let out = eval(&**rest, vars, functions, program, fuel);
                vars.pop();
                proof {
                    assert(vars@ =~= old(vars)@);
                    lemma_extends_trans(p0, p1, program@);
                }
                out
            },
        },
        Expression::Function { name, arguments, body, rest } => {
            functions.push(ScopedFunction { name, arguments, body: &**body });
            proof {
                assert(funs_view(functions@) =~= f0.push(
                    (name@, names_of(arguments@), **body),
                ));
            }
            let out = eval(&**rest, vars, functions, program, fuel);
            functions.pop();
            proof {
                assert(functions@ =~= old(functions)@);
            }
            out
        },
        Expression::Call(name, args) => eval_call(expr, name, args, vars, functions, program, fuel),
    }
}

/// Evaluates the call `expr` of function `name` on `args`: as `eval` does.
#[verifier::loop_isolation(false)]
fn eval_call<'a>(
    expr: &'a Expression,
    name: &'a String,
    args: &'a Vec<Expression>,
    vars: &mut Vec<ScopedVariable<'a>>,
    functions: &mut Vec<ScopedFunction<'a>>,
    program: &mut Vec<Step>,
    fuel: u64,
) -> (r: Result<usize, EvalError>)
    requires
        *expr == Expression::Call(*name, *args),
        program_wf(old(program)@),
        vars_in(old(program)@, old(vars)@),
    ensures
        final(vars)@ == old(vars)@,
        final(functions)@ == old(functions)@,
        program_wf(final(program)@),
        extends(final(program)@, old(program)@),
        match r {
            Ok(i) => i < final(program)@.len() && value_of(
                *expr,
                vars_view(old(program)@, old(vars)@),
                funs_view(old(functions)@),
                fuel as nat,
            ) == Ok::<Term, Failure>(term_at(final(program)@, i as int)),
            Err(e) => value_of(
                *expr,
                vars_view(old(program)@, old(vars)@),
                funs_view(old(functions)@),
                fuel as nat,
            ) == Err::<Term, Failure>(e@),
        },
    decreases fuel, expr, 0nat,
{
    let ghost p0 = program@;
    let ghost v0 = vars_view(program@, vars@);
    let ghost f0 = funs_view(functions@);
    proof {
        assert(program@.subrange(0, program@.len() as int) =~= program@);
    }
    match find_function(functions, name) {
        None => {
            proof {
                lemma_lookup_fun_missing(f0, name@);
            }
            Err(EvalError::UndefinedFunction(name.clone()))
        },
        Some(k) => {
            let params: &'a Vec<String> = functions[k].arguments;
            let fbody: &'a Expression = functions[k].body;
            let ghost pv = names_of(params@);
            proof {
                lemma_lookup_fun_found(f0, name@, k as int);
            }
            if params.len() != args.len() {
                return Err(
                    EvalError::WrongArity {
                        name: name.clone(),
                        expected: params.len(),
                        found: args.len(),
                    },
                );
            }
            if fuel == 0 {
                return Err(EvalError::TooDeep);
            }
            let mut vals: Vec<usize> = Vec::new();
            let mut n: usize = 0;
            proof {
                assert(args@.subrange(0, 0).len() == 0);
                assert(terms_of(program@, vals@) =~= Seq::<Term>::empty());
            }
            while n < args.len()
                invariant
                    n <= args.len(),
                    vals@.len() == n,
                    vars@ == old(vars)@,
                    functions@ == old(functions)@,
                    program_wf(program@),
                    extends(program@, p0),
                    forall|m: int| 0 <= m < n ==> #[trigger] vals@[m] < program@.len(),
                    values_of(args@.subrange(0, n as int), v0, f0, fuel as nat) == Ok::<
                        Seq<Term>,
                        Failure,
                    >(terms_of(program@, vals@)),
                decreases args.len() - n,
            {
                let ghost pb = program@;
                proof {
                    lemma_vars_view_extends(p0, pb, vars@);
                    assert(args@.subrange(0, n + 1).drop_last() =~= args@.subrange(0, n as int));
                }
                match eval(&args[n], vars, functions, program, fuel) {
                    Err(e) => {
                        proof {
                            lemma_args_prefix_fails(args@, n + 1, v0, f0, fuel as nat);
                            lemma_extends_trans(p0, pb, program@);
                        }
                        return Err(e);
                    },
                    Ok(i) => {
                        proof {
                            lemma_terms_of_extends(pb, program@, vals@);
                            lemma_extends_trans(p0, pb, program@);
                        }
                        let ghost before = terms_of(program@, vals@);
                        vals.push(i);
                        n = n + 1;
                        proof {
                            assert(terms_of(program@, vals@) =~= before.push(
                                term_at(program@, i as int),
                            ));
                        }
                    },
                }
            }
            proof {
                assert(args@.subrange(0, args@.len() as int) =~= args@);
            }
            let ghost ts = terms_of(program@, vals@);
            let ghost pc = program@;
            proof {
                lemma_vars_view_extends(p0, pc, vars@);
            }
            let n0 = vars.len();
            let mut m: usize = 0;
            while m < params.len()
                invariant
                    m <= params.len(),
                    params.len() == vals.len(),
                    program@ == pc,
                    vars@.len() == n0 + m,
                    vars@.subrange(0, n0 as int) == old(vars)@,
                    vars_in(pc, vars@),
                    vars_view(pc, vars@) == v0 + bind(pv, ts).subrange(0, m as int),
                decreases params.len() - m,
            {
                let ghost vb = vars@;
                vars.push(ScopedVariable { name: &params[m], value: vals[m] });
                m = m + 1;
                proof {
                    assert(vars@.subrange(0, n0 as int) =~= vb.subrange(0, n0 as int));
                    assert(vars_view(pc, vars@) =~= vars_view(pc, vb).push(
                        (params@[m - 1]@, term_at(pc, vals@[m - 1] as int)),
                    ));
                    assert(v0 + bind(pv, ts).subrange(0, m as int) =~= (v0 + bind(
                        pv,
                        ts,
                    ).subrange(0, m - 1)).push(bind(pv, ts)[m - 1]));
                }
            }
            proof {
                assert(bind(pv, ts).subrange(0, m as int) =~= bind(pv, ts));
            }
            let out = eval(fbody, vars, functions, program, fuel - 1);
            vars.truncate(n0);
            proof {
                lemma_extends_trans(p0, pc, program@);
            }
            out
        },
    }
}

/// The index of the most recently pushed function named `name`, if any.
fn find_function(functions: &Vec<ScopedFunction>, name: &String) -> (r: Option<usize>)
    ensures
        match r {
            Some(k) => k < functions@.len() && functions@[k as int].name@ == name@ && forall|m: int|
                k < m < functions@.len() ==> #[trigger] functions@[m].name@ != name@,
            None => forall|m: int| 0 <= m < functions@.len() ==> #[trigger] functions@[m].name@ != name@,
        },
{
    let mut k: usize = functions.len();
    while k > 0
        invariant
            k <= functions.len(),
            forall|m: int| k <= m < functions@.len() ==> #[trigger] functions@[m].name@ != name@,
        decreases k,
    {
        k = k - 1;
        if *functions[k].name == *name {
            return Some(k);
        }
    }
    None
}

/// The terms that the instructions `vals` compute.
pub open spec fn terms_of(p: Seq<Step>, vals: Seq<usize>) -> Seq<Term> {
    vals.map_values(|v: usize| term_at(p, v as int))
}

proof fn lemma_terms_of_extends(p: Seq<Step>, q: Seq<Step>, vals: Seq<usize>)
    requires
        extends(q, p),
        forall|m: int| 0 <= m < vals.len() ==> #[trigger] vals[m] < p.len(),
    ensures
        terms_of(q, vals) == terms_of(p, vals),
{
    assert forall|m: int| 0 <= m < vals.len() implies terms_of(q, vals)[m] == terms_of(p, vals)[m] by {
        lemma_term_at_extends(p, q, vals[m] as int);
    }
    assert(terms_of(q, vals) =~= terms_of(p, vals));
}

/// How deeply calls may nest inside one another in `evaluate`.
pub const CALL_DEPTH: u64 = 1000;

/// The outcome of a successful evaluation: the program that computes the
/// value, and the index of the instruction that holds it.
pub struct Computation {
    pub steps: Vec<Step>,
    pub result: usize,
}

/// What `e` evaluates to from empty scopes.
pub open spec fn outcome(e: Expression) -> Result<Term, Failure> {
    value_of(e, seq![], seq![], CALL_DEPTH as nat)
}

/// Evaluates a whole program, starting from empty scopes.
pub fn evaluate(expr: &Expression) -> (r: Result<Computation, EvalError>)
    ensures
        match r {
            Ok(c) => program_wf(c.steps@) && c.result < c.steps@.len() && outcome(*expr) == Ok::<
                Term,
                Failure,
            >(term_at(c.steps@, c.result as int)),
            Err(e) => outcome(*expr) == Err::<Term, Failure>(e@),
        },
{
    let mut vars: Vec<ScopedVariable> = Vec::new();
    let mut functions: Vec<ScopedFunction> = Vec::new();
    let mut steps: Vec<Step> = Vec::new();
    proof {
        assert(vars_view(steps@, vars@) =~= Seq::<VarBinding>::empty());
        assert(funs_view(functions@) =~= Seq::<FunBinding>::empty());
    }
    match eval(expr, &mut vars, &mut functions, &mut steps, CALL_DEPTH) {
        Ok(i) => Ok(Computation { steps, result: i }),
        Err(e) => Err(e),
    }
}

} // verus!
