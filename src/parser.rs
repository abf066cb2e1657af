use vstd::prelude::*;
use vstd::string::{StrSliceExecFns, StringExecFns};
use crate::ast::{Expression, Syntax, names_of, syntax_list};

verus! {

/// A syntax error: where parsing stopped, and the character found there
/// (`None` at the end of the input).
#[derive(Debug, PartialEq)]
pub struct ParseError {
    pub position: usize,
    pub found: Option<char>,
}

/// The characters that `char::is_whitespace` accepts: those with the
/// Unicode `White_Space` property.
pub open spec fn is_space(c: char) -> bool {
    let u = c as u32;
    (0x9 <= u <= 0xd) || u == 0x20 || u == 0x85 || u == 0xa0 || u == 0x1680 || (0x2000 <= u
        <= 0x200a) || u == 0x2028 || u == 0x2029 || u == 0x202f || u == 0x205f || u == 0x3000
}

pub open spec fn is_digit(c: char) -> bool {
    '0' as u32 <= c as u32 <= '9' as u32
}

pub open spec fn is_ident_start(c: char) -> bool {
    ('a' as u32 <= c as u32 <= 'z' as u32) || ('A' as u32 <= c as u32 <= 'Z' as u32) || c == '_'
}

pub open spec fn is_ident_char(c: char) -> bool {
    is_ident_start(c) || is_digit(c)
}

/// An identifier: an ASCII letter or `_`, then ASCII letters, digits or `_`.
pub open spec fn is_identifier(s: Seq<char>) -> bool {
    s.len() > 0 && is_ident_start(s[0]) && forall|i: int| 1 <= i < s.len() ==> #[trigger] is_ident_char(s[i])
}

/// A number literal: `0`, or decimal digits without a leading zero.
pub open spec fn is_literal(s: Seq<char>) -> bool {
    s.len() > 0 && (forall|i: int| 0 <= i < s.len() ==> #[trigger] is_digit(s[i])) && (s[0] == '0' ==> s.len() == 1)
}

/// Every name in `e` is an identifier and every literal is a number literal.
pub open spec fn well_formed(e: Expression) -> bool
    decreases e,
{
    match e {
        Expression::Number(d) => is_literal(d@),
        Expression::Variable(n) => is_identifier(n@),
        Expression::Negation(a) => well_formed(*a),
        Expression::Add(a, b) => well_formed(*a) && well_formed(*b),
        Expression::Subtract(a, b) => well_formed(*a) && well_formed(*b),
        Expression::Multiply(a, b) => well_formed(*a) && well_formed(*b),
        Expression::Divide(a, b) => well_formed(*a) && well_formed(*b),
        Expression::Call(n, args) => is_identifier(n@) && all_well_formed(args@),
        Expression::Let { name, rhs, rest } => is_identifier(name@) && well_formed(*rhs) && well_formed(
            *rest,
        ),
        Expression::Function { name, arguments, body, rest } => is_identifier(name@) && (forall|i: int|
            0 <= i < arguments@.len() ==> #[trigger] is_identifier(arguments@[i]@)) && well_formed(*body)
            && well_formed(*rest),
    }
}

/// Every expression of `s` is well formed.
pub open spec fn all_well_formed(s: Seq<Expression>) -> bool
    decreases s,
{
    if s.len() == 0 {
        true
    } else {
        all_well_formed(s.drop_last()) && well_formed(s.last())
    }
}


// The grammar, over the characters `s` of the input. Each rule reads from a
// position and gives the tree it recognises and the position after it, or
// `None` where it does not apply. Alternatives are tried in order and the
// first that applies is taken; a repetition takes as many items as follow.

pub open spec fn at(s: Seq<char>, pos: int, c: char) -> bool {
    0 <= pos < s.len() && s[pos] == c
}

/// The first position at or after `pos` that holds no whitespace.
pub open spec fn space_end(s: Seq<char>, pos: int) -> int
    decreases s.len() - pos,
{
    if 0 <= pos < s.len() && is_space(s[pos]) {
        space_end(s, pos + 1)
    } else {
        pos
    }
}

pub open spec fn ident_rest_end(s: Seq<char>, pos: int) -> int
    decreases s.len() - pos,
{
    if 0 <= pos < s.len() && is_ident_char(s[pos]) {
        ident_rest_end(s, pos + 1)
    } else {
        pos
    }
}

/// The end of the identifier at `pos`; `pos` itself where none starts there.
pub open spec fn ident_end(s: Seq<char>, pos: int) -> int {
    if 0 <= pos < s.len() && is_ident_start(s[pos]) {
        ident_rest_end(s, pos + 1)
    } else {
        pos
    }
}

pub open spec fn digits_end(s: Seq<char>, pos: int) -> int
    decreases s.len() - pos,
{
    if 0 <= pos < s.len() && is_digit(s[pos]) {
        digits_end(s, pos + 1)
    } else {
        pos
    }
}

/// The end of the number literal at `pos`: a lone `0`, or digits that do not
/// start with `0`; `pos` itself where none starts there.
pub open spec fn literal_end(s: Seq<char>, pos: int) -> int {
    if 0 <= pos < s.len() && is_digit(s[pos]) {
        if s[pos] == '0' {
            pos + 1
        } else {
            digits_end(s, pos + 1)
        }
    } else {
        pos
    }
}

/// atom := number | `(` sum `)` | identifier `(` arguments | identifier,
/// with whitespace around it.
pub open spec fn atom(s: Seq<char>, pos: int) -> Option<(Syntax, int)>
    decreases s.len() - pos, 1nat,
{
    let p = space_end(s, pos);
    if !(0 <= pos <= p <= s.len()) {
        None
    } else if literal_end(s, p) > p {
        let q = literal_end(s, p);
        Some((Syntax::Number(s.subrange(p, q)), space_end(s, q)))
    } else if at(s, p, '(') {
        match sum(s, p + 1) {
            Some((e, q)) => if at(s, q, ')') {
                Some((e, space_end(s, q + 1)))
            } else {
                None
            },
            None => None,
        }
    } else if ident_end(s, p) > p {
        let q = ident_end(s, p);
        let t = space_end(s, q);
        if !(q <= t) {
            None
        } else if at(s, t, '(') {
            match arguments(s, t + 1, seq![]) {
                Some((a, u)) => Some((Syntax::Call(s.subrange(p, q), a), space_end(s, u))),
                None => None,
            }
        } else {
            Some((Syntax::Variable(s.subrange(p, q)), t))
        }
    } else {
        None
    }
}

/// arguments := `)` | sum `,` arguments | sum `)`, after the items `done`.
pub open spec fn arguments(s: Seq<char>, pos: int, done: Seq<Syntax>) -> Option<(Seq<Syntax>, int)>
    decreases s.len() - pos, 5nat,
{
    if !(0 <= pos <= s.len()) {
        None
    } else if at(s, pos, ')') {
        Some((done, pos + 1))
    } else {
        match sum(s, pos) {
            Some((e, u)) => if !(pos <= u) {
                None
            } else if at(s, u, ',') {
                arguments(s, u + 1, done.push(e))
            } else if at(s, u, ')') {
                Some((done.push(e), u + 1))
            } else {
                None
            },
            None => None,
        }
    }
}

/// unary := `-` unary | atom, with whitespace around each `-`.
pub open spec fn unary(s: Seq<char>, pos: int) -> Option<(Syntax, int)>
    decreases s.len() - pos, 2nat,
{
    let p = space_end(s, pos);
    if !(0 <= pos <= p <= s.len()) {
        None
    } else if at(s, p, '-') {
        match unary(s, p + 1) {
            Some((e, q)) => Some((Syntax::Negation(Box::new(e)), q)),
            None => None,
        }
    } else {
        atom(s, p)
    }
}

/// What follows the left operand `acc` of a product: `*` or `/` and a unary
/// term, any number of times, grouped from the left.
pub open spec fn product_rest(s: Seq<char>, pos: int, acc: Syntax) -> Option<(Syntax, int)>
    decreases s.len() - pos, 0nat,
{
    let p = space_end(s, pos);
    if 0 <= pos <= p && (at(s, p, '*') || at(s, p, '/')) {
        match unary(s, p + 1) {
            Some((b, u)) => if p < u <= s.len() {
                product_rest(
                    s,
                    u,
                    if at(s, p, '*') {
                        Syntax::Multiply(Box::new(acc), Box::new(b))
                    } else {
                        Syntax::Divide(Box::new(acc), Box::new(b))
                    },
                )
            } else {
                None
            },
            None => None,
        }
    } else {
        Some((acc, pos))
    }
}

/// product := unary ((`*` | `/`) unary)*
pub open spec fn product(s: Seq<char>, pos: int) -> Option<(Syntax, int)>
    decreases s.len() - pos, 3nat,
{
    match unary(s, pos) {
        Some((e, q)) => if pos <= q <= s.len() {
            product_rest(s, q, e)
        } else {
            None
        },
        None => None,
    }
}

/// What follows the left operand `acc` of a sum: `+` or `-` and a product,
/// any number of times, grouped from the left.
pub open spec fn sum_rest(s: Seq<char>, pos: int, acc: Syntax) -> Option<(Syntax, int)>
    decreases s.len() - pos, 0nat,
{
    let p = space_end(s, pos);
    if 0 <= pos <= p && (at(s, p, '+') || at(s, p, '-')) {
        match product(s, p + 1) {
            Some((b, u)) => if p < u <= s.len() {
                sum_rest(
                    s,
                    u,
                    if at(s, p, '+') {
                        Syntax::Add(Box::new(acc), Box::new(b))
                    } else {
                        Syntax::Subtract(Box::new(acc), Box::new(b))
                    },
                )
            } else {
                None
            },
            None => None,
        }
    } else {
        Some((acc, pos))
    }
}

/// sum := product ((`+` | `-`) product)*
pub open spec fn sum(s: Seq<char>, pos: int) -> Option<(Syntax, int)>
    decreases s.len() - pos, 4nat,
{
    match product(s, pos) {
        Some((e, q)) => if pos <= q <= s.len() {
            sum_rest(s, q, e)
        } else {
            None
        },
        None => None,
    }
}

/// The parameter names of a function, each with the whitespace after it,
/// after the names `done`.
pub open spec fn parameters(s: Seq<char>, pos: int, done: Seq<Seq<char>>) -> (Seq<Seq<char>>, int)
    decreases s.len() - pos,
{
    let u = ident_end(s, pos);
    if 0 <= pos < u && u <= space_end(s, u) <= s.len() {
        parameters(s, space_end(s, u), done.push(s.subrange(pos, u)))
    } else {
        (done, pos)
    }
}

/// The rest of `let` name `=` sum `;` declaration, from just after `let`.
pub open spec fn let_rest(s: Seq<char>, pos: int) -> Option<(Syntax, int)>
    decreases s.len() - pos, 7nat,
{
    let n0 = space_end(s, pos);
    let n1 = ident_end(s, n0);
    let q = space_end(s, n1);
    if !(0 <= pos <= n0 < n1 <= q) || !at(s, q, '=') {
        None
    } else {
        match sum(s, q + 1) {
            Some((rhs, u)) => if q < u && at(s, u, ';') {
                match declaration(s, u + 1) {
                    Some((rest, v)) => Some(
                        (Syntax::Let(s.subrange(n0, n1), Box::new(rhs), Box::new(rest)), v),
                    ),
                    None => None,
                }
            } else {
                None
            },
            None => None,
        }
    }
}

/// The rest of `fn` name parameters `=` sum `;` declaration, from just after `fn`.
pub open spec fn function_rest(s: Seq<char>, pos: int) -> Option<(Syntax, int)>
    decreases s.len() - pos, 7nat,
{
    let n0 = space_end(s, pos);
    let n1 = ident_end(s, n0);
    let ps = parameters(s, space_end(s, n1), seq![]);
    let t = ps.1;
    if !(0 <= pos <= n0 < n1 <= t) || !at(s, t, '=') {
        None
    } else {
        match sum(s, t + 1) {
            Some((body, u)) => if t < u && at(s, u, ';') {
                match declaration(s, u + 1) {
                    Some((rest, v)) => Some(
                        (Syntax::Function(s.subrange(n0, n1), ps.0, Box::new(body), Box::new(rest)), v),
                    ),
                    None => None,
                }
            } else {
                None
            },
            None => None,
        }
    }
}

/// The identifier from `p` to `k` is the word `let`.
pub open spec fn is_let(s: Seq<char>, p: int, k: int) -> bool {
    k == p + 3 && at(s, p, 'l') && at(s, p + 1, 'e') && at(s, p + 2, 't')
}

/// The identifier from `p` to `k` is the word `fn`.
pub open spec fn is_fn(s: Seq<char>, p: int, k: int) -> bool {
    k == p + 2 && at(s, p, 'f') && at(s, p + 1, 'n')
}

/// declaration := `let` ... | `fn` ... | sum, tried in that order, with
/// whitespace around it. A keyword is a whole identifier: `letter` is none.
pub open spec fn declaration(s: Seq<char>, pos: int) -> Option<(Syntax, int)>
    decreases s.len() - pos, 8nat,
{
    let p = space_end(s, pos);
    let k = ident_end(s, p);
    if !(0 <= pos <= p <= k) {
        None
    } else {
        let first = if is_let(s, p, k) {
            let_rest(s, k)
        } else if is_fn(s, p, k) {
            function_rest(s, k)
        } else {
            None
        };
        match first {
            Some((e, q)) => Some((e, space_end(s, q))),
            None => match sum(s, p) {
                Some((e, q)) => Some((e, space_end(s, q))),
                None => None,
            },
        }
    }
}

/// A program: one declaration that takes the whole input.
pub open spec fn program(s: Seq<char>) -> Option<Syntax> {
    match declaration(s, 0) {
        Some((e, q)) => if q == s.len() {
            Some(e)
        } else {
            None
        },
        None => None,
    }
}

fn space(c: char) -> (r: bool)
    ensures
        r == is_space(c),
{
    let u = c as u32;
    (0x9 <= u && u <= 0xd) || u == 0x20 || u == 0x85 || u == 0xa0 || u == 0x1680 || (0x2000 <= u
        && u <= 0x200a) || u == 0x2028 || u == 0x2029 || u == 0x202f || u == 0x205f || u == 0x3000
}

fn digit(c: char) -> (r: bool)
    ensures
        r == is_digit(c),
{
    '0' as u32 <= c as u32 && c as u32 <= '9' as u32
}

fn ident_start(c: char) -> (r: bool)
    ensures
        r == is_ident_start(c),
{
    ('a' as u32 <= c as u32 && c as u32 <= 'z' as u32) || ('A' as u32 <= c as u32 && c as u32
        <= 'Z' as u32) || c == '_'
}

/// The input, read as characters, with the text it came from.
pub struct Source<'s> {
    pub text: &'s str,
    pub chars: Vec<char>,
}

impl<'s> Source<'s> {
    pub open spec fn wf(&self) -> bool {
        self.chars@ == self.text@
    }

    pub fn new(text: &'s str) -> (r: Source<'s>)
        ensures
            r.wf(),
            r.text == text,
    {
        let n = text.unicode_len();
        let mut chars: Vec<char> = Vec::new();
        let mut i: usize = 0;
        while i < n
            invariant
                n == text@.len(),
                i <= n,
                chars@ == text@.subrange(0, i as int),
            decreases n - i,
        {
            chars.push(text.get_char(i));
            i = i + 1;
            proof {
                assert(chars@ =~= text@.subrange(0, i as int));
            }
        }
        proof {
            assert(text@.subrange(0, n as int) =~= text@);
        }
        Source { text, chars }
    }

    fn error(&self, pos: usize) -> (r: ParseError)
        requires
            pos <= self.chars@.len(),
        ensures
            r.position == pos,
    {
        if pos < self.chars.len() {
            ParseError { position: pos, found: Some(self.chars[pos]) }
        } else {
            ParseError { position: pos, found: None }
        }
    }

    fn slice(&self, from: usize, to: usize) -> (r: String)
        requires
            self.wf(),
            from <= to <= self.chars@.len(),
        ensures
            r@ == self.chars@.subrange(from as int, to as int),
    {
        String::from_str(self.text.substring_char(from, to))
    }

    fn at(&self, pos: usize, c: char) -> (r: bool)
        ensures
            r == (pos < self.chars@.len() && self.chars@[pos as int] == c),
            r ==> pos < usize::MAX,
    {
        pos < self.chars.len() && self.chars[pos] == c
    }

    /// The first position at or after `pos` that holds no whitespace.
    fn skip_space(&self, pos: usize) -> (r: usize)
        requires
            pos <= self.chars@.len(),
        ensures
            pos <= r <= self.chars@.len(),
            r == space_end(self.chars@, pos as int),
    {
        let mut p = pos;
        while p < self.chars.len() && space(self.chars[p])
            invariant
                pos <= p <= self.chars@.len(),
                space_end(self.chars@, pos as int) == space_end(self.chars@, p as int),
            decreases self.chars@.len() - p,
        {
            p = p + 1;
        }
        p
    }

    /// The end of the identifier that starts at `pos`, or `pos` if none does.
    fn scan_identifier(&self, pos: usize) -> (r: usize)
        requires
            pos <= self.chars@.len(),
        ensures
            pos <= r <= self.chars@.len(),
            r == ident_end(self.chars@, pos as int),
            r > pos ==> is_identifier(self.chars@.subrange(pos as int, r as int)),
    {
        if !(pos < self.chars.len() && ident_start(self.chars[pos])) {
            return pos;
        }
        let mut p = pos + 1;
        while p < self.chars.len() && (ident_start(self.chars[p]) || digit(self.chars[p]))
            invariant
                pos < p <= self.chars@.len(),
                is_identifier(self.chars@.subrange(pos as int, p as int)),
                ident_end(self.chars@, pos as int) == ident_rest_end(self.chars@, p as int),
            decreases self.chars@.len() - p,
        {
            proof {
                let s = self.chars@.subrange(pos as int, p + 1);
                assert forall|i: int| 1 <= i < s.len() implies #[trigger] is_ident_char(s[i]) by {
                    if i < s.len() - 1 {
                        assert(s[i] == self.chars@.subrange(pos as int, p as int)[i]);
                    }
                }
            }
            p = p + 1;
        }
        p
    }

    /// The end of the number literal that starts at `pos`, or `pos` if none does.
    fn scan_literal(&self, pos: usize) -> (r: usize)
        requires
            pos <= self.chars@.len(),
        ensures
            pos <= r <= self.chars@.len(),
            r == literal_end(self.chars@, pos as int),
            r > pos ==> is_literal(self.chars@.subrange(pos as int, r as int)),
    {
        if !(pos < self.chars.len() && digit(self.chars[pos])) {
            return pos;
        }
        if self.chars[pos] == '0' {
            return pos + 1;
        }
        let mut p = pos + 1;
        while p < self.chars.len() && digit(self.chars[p])
            invariant
                pos < p <= self.chars@.len(),
                self.chars@[pos as int] != '0',
                is_literal(self.chars@.subrange(pos as int, p as int)),
                literal_end(self.chars@, pos as int) == digits_end(self.chars@, p as int),
            decreases self.chars@.len() - p,
        {
            proof {
                let s = self.chars@.subrange(pos as int, p + 1);
                assert forall|i: int| 0 <= i < s.len() implies #[trigger] is_digit(s[i]) by {
                    if i < s.len() - 1 {
                        assert(s[i] == self.chars@.subrange(pos as int, p as int)[i]);
                    }
                }
            }
            p = p + 1;
        }
        p
    }

    fn parse_atom(&self, pos: usize) -> (r: Result<(Expression, usize), ParseError>)
        requires
            self.wf(),
            pos <= self.chars@.len(),
        ensures
            match r {
                Ok((e, q)) => atom(self.chars@, pos as int) == Some((e@, q as int)) && pos <= q
                    <= self.chars@.len() && well_formed(e),
                Err(x) => atom(self.chars@, pos as int) is None && x.position <= self.chars@.len(),
            },
        decreases self.chars@.len() - pos, 1nat,
    {
        let p = self.skip_space(pos);
        let q = self.scan_literal(p);
        if q > p {
            let digits = self.slice(p, q);
            return Ok((Expression::Number(digits), self.skip_space(q)));
        }
        if self.at(p, '(') {
            match self.parse_sum(p + 1) {
                Err(x) => Err(x),
                Ok((e, q)) => if self.at(q, ')') {
                    Ok((e, self.skip_space(q + 1)))
                } else {
                    Err(self.error(q))
                },
            }
        } else {
            let q = self.scan_identifier(p);
            if q == p {
                return Err(self.error(p));
            }
            let name = self.slice(p, q);
            let t = self.skip_space(q);
            if self.at(t, '(') {
                match self.parse_arguments(t + 1) {
                    Err(x) => Err(x),
                    Ok((args, u)) => Ok((Expression::Call(name, args), self.skip_space(u))),
                }
            } else {
                Ok((Expression::Variable(name), t))
            }
        }
    }

    /// The arguments of a call, after its `(`, up to and including the `)`.
    fn parse_arguments(&self, pos: usize) -> (r: Result<(Vec<Expression>, usize), ParseError>)
        requires
            self.wf(),
            pos <= self.chars@.len(),
        ensures
            match r {
                Ok((args, q)) => arguments(self.chars@, pos as int, seq![]) == Some(
                    (syntax_list(args@), q as int),
                ) && pos <= q <= self.chars@.len() && all_well_formed(args@),
                Err(x) => arguments(self.chars@, pos as int, seq![]) is None && x.position
                    <= self.chars@.len(),
            },
        decreases self.chars@.len() - pos, 5nat,
    {
        let mut args: Vec<Expression> = Vec::new();
        let mut t = pos;
        loop
            invariant
                self.wf(),
                pos <= t <= self.chars@.len(),
                all_well_formed(args@),
                arguments(self.chars@, pos as int, seq![]) == arguments(
                    self.chars@,
                    t as int,
                    syntax_list(args@),
                ),
            decreases self.chars@.len() - t,
        {
            if self.at(t, ')') {
                return Ok((args, t + 1));
            }
            match self.parse_sum(t) {
                Err(x) => {
                    return Err(x);
                },
                Ok((e, u)) => {
                    let ghost before = args@;
                    args.push(e);
                    proof {
                        assert(args@.drop_last() =~= before);
                    }
                    if self.at(u, ',') {
                        t = u + 1;
                    } else if self.at(u, ')') {
                        return Ok((args, u + 1));
                    } else {
                        return Err(self.error(u));
                    }
                },
            }
        }
    }

    fn parse_unary(&self, pos: usize) -> (r: Result<(Expression, usize), ParseError>)
        requires
            self.wf(),
            pos <= self.chars@.len(),
        ensures
            match r {
                Ok((e, q)) => unary(self.chars@, pos as int) == Some((e@, q as int)) && pos <= q
                    <= self.chars@.len() && well_formed(e),
                Err(x) => unary(self.chars@, pos as int) is None && x.position <= self.chars@.len(),
            },
        decreases self.chars@.len() - pos, 2nat,
    {
        let p = self.skip_space(pos);
        if self.at(p, '-') {
            match self.parse_unary(p + 1) {
                Err(x) => Err(x),
                Ok((e, q)) => Ok((Expression::Negation(Box::new(e)), q)),
            }
        } else {
            self.parse_atom(p)
        }
    }

    fn parse_product(&self, pos: usize) -> (r: Result<(Expression, usize), ParseError>)
        requires
            self.wf(),
            pos <= self.chars@.len(),
        ensures
            match r {
                Ok((e, q)) => product(self.chars@, pos as int) == Some((e@, q as int)) && pos <= q
                    <= self.chars@.len() && well_formed(e),
                Err(x) => product(self.chars@, pos as int) is None && x.position <= self.chars@.len(),
            },
        decreases self.chars@.len() - pos, 3nat,
    {
        match self.parse_unary(pos) {
            Err(x) => Err(x),
            Ok((first, q0)) => {
                let mut e = first;
                let mut q = q0;
                loop
                    invariant
                        self.wf(),
                        pos <= q <= self.chars@.len(),
                        well_formed(e),
                        product(self.chars@, pos as int) == product_rest(self.chars@, q as int, e@),
                    decreases self.chars@.len() - q,
                {
                    let p = self.skip_space(q);
                    let first_op = self.at(p, '*');
                    if !first_op && !self.at(p, '/') {
                        return Ok((e, q));
                    }
                    match self.parse_unary(p + 1) {
                        Err(x) => {
                            return Err(x);
                        },
                        Ok((rhs, u)) => {
                            e = if first_op {
                                Expression::Multiply(Box::new(e), Box::new(rhs))
                            } else {
                                Expression::Divide(Box::new(e), Box::new(rhs))
                            };
                            q = u;
                        },
                    }
                }
            },
        }
    }

    fn parse_sum(&self, pos: usize) -> (r: Result<(Expression, usize), ParseError>)
        requires
            self.wf(),
            pos <= self.chars@.len(),
        ensures
            match r {
                Ok((e, q)) => sum(self.chars@, pos as int) == Some((e@, q as int)) && pos <= q
                    <= self.chars@.len() && well_formed(e),
                Err(x) => sum(self.chars@, pos as int) is None && x.position <= self.chars@.len(),
            },
        decreases self.chars@.len() - pos, 4nat,
    {
        match self.parse_product(pos) {
            Err(x) => Err(x),
            Ok((first, q0)) => {
                let mut e = first;
                let mut q = q0;
                loop
                    invariant
                        self.wf(),
                        pos <= q <= self.chars@.len(),
                        well_formed(e),
                        sum(self.chars@, pos as int) == sum_rest(self.chars@, q as int, e@),
                    decreases self.chars@.len() - q,
                {
                    let p = self.skip_space(q);
                    let first_op = self.at(p, '+');
                    if !first_op && !self.at(p, '-') {
                        return Ok((e, q));
                    }
                    match self.parse_product(p + 1) {
                        Err(x) => {
                            return Err(x);
                        },
                        Ok((rhs, u)) => {
                            e = if first_op {
                                Expression::Add(Box::new(e), Box::new(rhs))
                            } else {
                                Expression::Subtract(Box::new(e), Box::new(rhs))
                            };
                            q = u;
                        },
                    }
                }
            },
        }
    }

    fn parse_let(&self, pos: usize) -> (r: Result<(Expression, usize), ParseError>)
        requires
            self.wf(),
            pos <= self.chars@.len(),
        ensures
            match r {
                Ok((e, q)) => let_rest(self.chars@, pos as int) == Some((e@, q as int)) && pos <= q
                    <= self.chars@.len() && well_formed(e),
                Err(x) => let_rest(self.chars@, pos as int) is None && x.position <= self.chars@.len(),
            },
        decreases self.chars@.len() - pos, 7nat,
    {
        let n0 = self.skip_space(pos);
        let n1 = self.scan_identifier(n0);
        if n1 == n0 {
            return Err(self.error(n0));
        }
        let name = self.slice(n0, n1);
        let q = self.skip_space(n1);
        if !self.at(q, '=') {
            return Err(self.error(q));
        }
        match self.parse_sum(q + 1) {
            Err(x) => Err(x),
            Ok((rhs, u)) => {
                if !self.at(u, ';') {
                    return Err(self.error(u));
                }
                match self.parse_declaration(u + 1) {
                    Err(x) => Err(x),
                    Ok((rest, v)) => Ok((Expression::Let { name, rhs: Box::new(rhs), rest: Box::new(rest) }, v)),
                }
            },
        }
    }

    #[verifier::loop_isolation(false)]
    fn parse_function(&self, pos: usize) -> (r: Result<(Expression, usize), ParseError>)
        requires
            self.wf(),
            pos <= self.chars@.len(),
        ensures
            match r {
                Ok((e, q)) => function_rest(self.chars@, pos as int) == Some((e@, q as int)) && pos <= q
                    <= self.chars@.len() && well_formed(e),
                Err(x) => function_rest(self.chars@, pos as int) is None && x.position <= self.chars@.len(),
            },
        decreases self.chars@.len() - pos, 7nat,
    {
        let n0 = self.skip_space(pos);
        let n1 = self.scan_identifier(n0);
        if n1 == n0 {
            return Err(self.error(n0));
        }
        let name = self.slice(n0, n1);
        let mut arguments: Vec<String> = Vec::new();
        let t0 = self.skip_space(n1);
        let mut t = t0;
        proof {
            assert(names_of(arguments@) =~= Seq::<Seq<char>>::empty());
        }
        loop
            invariant
                self.wf(),
                t0 <= t <= self.chars@.len(),
                forall|i: int| 0 <= i < arguments@.len() ==> #[trigger] is_identifier(arguments@[i]@),
                parameters(self.chars@, t0 as int, seq![]) == parameters(
                    self.chars@,
                    t as int,
                    names_of(arguments@),
                ),
            decreases self.chars@.len() - t,
        {
            let u = self.scan_identifier(t);
            if u == t {
                break;
            }
            let ghost before = arguments@;
            arguments.push(self.slice(t, u));
            proof {
                assert(names_of(arguments@) =~= names_of(before).push(
                    self.chars@.subrange(t as int, u as int),
                ));
            }
            t = self.skip_space(u);
        }
        if !self.at(t, '=') {
            return Err(self.error(t));
        }
        match self.parse_sum(t + 1) {
            Err(x) => Err(x),
            Ok((body, u)) => {
                if !self.at(u, ';') {
                    return Err(self.error(u));
                }
                match self.parse_declaration(u + 1) {
                    Err(x) => Err(x),
                    Ok((rest, v)) => Ok((
                        Expression::Function { name, arguments, body: Box::new(body), rest: Box::new(rest) },
                        v,
                    )),
                }
            },
        }
    }

    /// Of several failed alternatives, the error that got furthest is kept.
    fn parse_declaration(&self, pos: usize) -> (r: Result<(Expression, usize), ParseError>)
        requires
            self.wf(),
            pos <= self.chars@.len(),
        ensures
            match r {
                Ok((e, q)) => declaration(self.chars@, pos as int) == Some((e@, q as int)) && pos <= q
                    <= self.chars@.len() && well_formed(e),
                Err(x) => declaration(self.chars@, pos as int) is None && x.position <= self.chars@.len(),
            },
        decreases self.chars@.len() - pos, 8nat,
    {
        let p = self.skip_space(pos);
        let k = self.scan_identifier(p);
        let mut failed: Option<ParseError> = None;
        if k - p == 3 && self.at(p, 'l') && self.at(p + 1, 'e') && self.at(p + 2, 't') {
            match self.parse_let(k) {
                Ok((e, q)) => {
                    return Ok((e, self.skip_space(q)));
                },
                Err(x) => {
                    failed = Some(x);
                },
            }
        } else if k - p == 2 && self.at(p, 'f') && self.at(p + 1, 'n') {
            match self.parse_function(k) {
                Ok((e, q)) => {
                    return Ok((e, self.skip_space(q)));
                },
                Err(x) => {
                    failed = Some(x);
                },
            }
        }
        match self.parse_sum(p) {
            Ok((e, q)) => Ok((e, self.skip_space(q))),
            Err(x) => match failed {
                Some(y) => if y.position > x.position {
                    Err(y)
                } else {
                    Err(x)
                },
                None => Err(x),
            },
        }
    }
}

/// The parser of the language.
pub struct Parser {}

/// The parser of the language.
pub fn parser() -> (r: Parser) {
    Parser {}
}

impl Parser {
    /// Parses a whole program: one declaration, and nothing after it.
    pub fn parse(&self, src: &str) -> (r: Result<Expression, Vec<ParseError>>)
        ensures
            match r {
                Ok(e) => program(src@) == Some(e@) && well_formed(e),
                Err(errors) => program(src@) is None && errors@.len() > 0 && forall|i: int|
                    0 <= i < errors@.len() ==> #[trigger] errors@[i].position <= src@.len(),
            },
    {
        let source = Source::new(src);
        match source.parse_declaration(0) {
            Ok((e, q)) => if q == source.chars.len() {
                Ok(e)
            } else {
                Err(vec![source.error(q)])
            },
            Err(x) => Err(vec![x]),
        }
    }
}

} // verus!
