use vstd::prelude::*;
use crate::ast::Term;

verus! {

/// One instruction of a straight-line arithmetic program. Operands name
/// earlier instructions by their index; running the program computes the
/// instructions in order, each from values already computed.
#[derive(Debug, PartialEq)]
pub enum Step {
    Literal(String),
    Negation(usize),
    Add(usize, usize),
    Subtract(usize, usize),
    Multiply(usize, usize),
    Divide(usize, usize),
}

/// Every operand of `s`, standing at index `i`, names an earlier instruction.
pub open spec fn refers_back(s: Step, i: int) -> bool {
    match s {
        Step::Literal(_) => true,
        Step::Negation(a) => a < i,
        Step::Add(a, b) => a < i && b < i,
        Step::Subtract(a, b) => a < i && b < i,
        Step::Multiply(a, b) => a < i && b < i,
        Step::Divide(a, b) => a < i && b < i,
    }
}

pub open spec fn program_wf(p: Seq<Step>) -> bool {
    forall|i: int| 0 <= i < p.len() ==> #[trigger] refers_back(p[i], i)
}

/// The term that instruction `i` of `p` computes.
pub open spec fn term_at(p: Seq<Step>, i: int) -> Term
    decreases i,
{
    if 0 <= i < p.len() {
        match p[i] {
            Step::Literal(d) => Term::Literal(d@),
            Step::Negation(a) => if 0 <= a < i {
                Term::Negation(Box::new(term_at(p, a as int)))
            } else {
                Term::Literal(seq![])
            },
            Step::Add(a, b) => if 0 <= a < i && 0 <= b < i {
                Term::Add(Box::new(term_at(p, a as int)), Box::new(term_at(p, b as int)))
            } else {
                Term::Literal(seq![])
            },
            Step::Subtract(a, b) => if 0 <= a < i && 0 <= b < i {
                Term::Subtract(Box::new(term_at(p, a as int)), Box::new(term_at(p, b as int)))
            } else {
                Term::Literal(seq![])
            },
            Step::Multiply(a, b) => if 0 <= a < i && 0 <= b < i {
                Term::Multiply(Box::new(term_at(p, a as int)), Box::new(term_at(p, b as int)))
            } else {
                Term::Literal(seq![])
            },
            Step::Divide(a, b) => if 0 <= a < i && 0 <= b < i {
                Term::Divide(Box::new(term_at(p, a as int)), Box::new(term_at(p, b as int)))
            } else {
                Term::Literal(seq![])
            },
        }
    } else {
        Term::Literal(seq![])
    }
}

/// `q` keeps the instructions of `p` and may add more after them.
pub open spec fn extends(q: Seq<Step>, p: Seq<Step>) -> bool {
    p.len() <= q.len() && q.subrange(0, p.len() as int) == p
}

/// Adding instructions to a program leaves what the earlier ones compute unchanged.
pub proof fn lemma_term_at_extends(p: Seq<Step>, q: Seq<Step>, i: int)
    requires
        extends(q, p),
        0 <= i < p.len(),
    ensures
        term_at(q, i) == term_at(p, i),
    decreases i,
{
    assert(q[i] == p[i]) by {
        assert(q.subrange(0, p.len() as int)[i] == q[i]);
    }
    match p[i] {
        Step::Literal(_) => {},
        Step::Negation(a) => {
            if 0 <= a < i {
                lemma_term_at_extends(p, q, a as int);
            }
        },
        Step::Add(a, b) | Step::Subtract(a, b) | Step::Multiply(a, b) | Step::Divide(a, b) => {
            if 0 <= a < i && 0 <= b < i {
                lemma_term_at_extends(p, q, a as int);
                lemma_term_at_extends(p, q, b as int);
            }
        },
    }
}

} // verus!
