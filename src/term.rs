use vstd::prelude::*;
use crate::state::StateContainer;
use crate::state::StateChangeResult;
use crate::state::build_spec;

verus! {

/// The mathematical value of a [`Term`]: the same tree, with labels and names
/// as character sequences and each container as its sorted labels.
pub enum Expr {
    Integer(u64),
    Symbol(Seq<char>),
    Addition(Box<Expr>, Box<Expr>),
    Multiplication(Box<Expr>, Box<Expr>),
    Negation(Box<Expr>),
    FermionKet(Seq<Seq<char>>),
    FermionBra(Seq<Seq<char>>),
    Creation(Seq<char>),
    Annihilation(Seq<char>),
}

/// An expression tree over scalars, symbols, fermionic operators and basis vectors.
#[derive(Debug)]
pub enum Term {
    Integer(u64),
    Symbol(String),
    Addition(Box<Term>, Box<Term>),
    Multiplication(Box<Term>, Box<Term>),
    Negation(Box<Term>),
    FermionKet(StateContainer),
    FermionBra(StateContainer),
    Creation(String),
    Annihilation(String),
}

/// The value of a term as an [`Expr`].
pub open spec fn model(t: &Term) -> Expr
    decreases t,
{
    match t {
        Term::Integer(n) => Expr::Integer(*n),
        Term::Symbol(s) => Expr::Symbol(s@),
        Term::Addition(a, b) => Expr::Addition(Box::new(model(a)), Box::new(model(b))),
        Term::Multiplication(a, b) => Expr::Multiplication(Box::new(model(a)), Box::new(model(b))),
        Term::Negation(a) => Expr::Negation(Box::new(model(a))),
        Term::FermionKet(c) => Expr::FermionKet(c@),
        Term::FermionBra(c) => Expr::FermionBra(c@),
        Term::Creation(s) => Expr::Creation(s@),
        Term::Annihilation(s) => Expr::Annihilation(s@),
    }
}

impl View for Term {
    type V = Expr;

    open spec fn view(&self) -> Expr {
        model(self)
    }
}

/// Negation as built: zero stays zero, a double negation cancels.
pub open spec fn neg_of(a: Expr) -> Expr {
    match a {
        Expr::Integer(0) => a,
        Expr::Negation(inner) => *inner,
        _ => Expr::Negation(Box::new(a)),
    }
}

/// Addition as built: a negation on the left is hoisted over the whole sum.
pub open spec fn add_of(a: Expr, b: Expr) -> Expr {
    match a {
        Expr::Negation(x) => match b {
            Expr::Negation(y) => Expr::Negation(Box::new(Expr::Addition(x, y))),
            _ => Expr::Negation(Box::new(Expr::Addition(x, Box::new(Expr::Negation(Box::new(b)))))),
        },
        _ => Expr::Addition(Box::new(a), Box::new(b)),
    }
}

/// Subtraction as built: `a + (-b)` with the same hoisting as addition.
pub open spec fn sub_of(a: Expr, b: Expr) -> Expr {
    match a {
        Expr::Negation(x) => match b {
            Expr::Negation(y) => Expr::Negation(Box::new(Expr::Addition(x, Box::new(Expr::Negation(y))))),
            _ => Expr::Negation(Box::new(Expr::Addition(x, Box::new(b)))),
        },
        _ => match b {
            Expr::Negation(y) => Expr::Addition(Box::new(a), y),
            _ => Expr::Addition(Box::new(a), Box::new(Expr::Negation(Box::new(b)))),
        },
    }
}

/// Multiplication as built: negations are hoisted over the product, two cancel.
pub open spec fn mul_of(a: Expr, b: Expr) -> Expr {
    match a {
        Expr::Negation(x) => match b {
            Expr::Negation(y) => Expr::Multiplication(x, y),
            _ => Expr::Negation(Box::new(Expr::Multiplication(x, Box::new(b)))),
        },
        _ => match b {
            Expr::Negation(y) => Expr::Negation(Box::new(Expr::Multiplication(Box::new(a), y))),
            _ => Expr::Multiplication(Box::new(a), Box::new(b)),
        },
    }
}

/// `-a` on terms, as the operator builds it.
pub open spec fn neg_term(a: Term) -> Term {
    match a {
        Term::Negation(inner) => *inner,
        Term::Integer(n) => if n == 0 {
            a
        } else {
            Term::Negation(Box::new(a))
        },
        _ => Term::Negation(Box::new(a)),
    }
}

/// `a + b` on terms, as the operator builds it.
pub open spec fn add_term(a: Term, b: Term) -> Term {
    match a {
        Term::Negation(x) => match b {
            Term::Negation(y) => Term::Negation(Box::new(Term::Addition(x, y))),
            _ => Term::Negation(Box::new(Term::Addition(x, Box::new(Term::Negation(Box::new(b)))))),
        },
        _ => Term::Addition(Box::new(a), Box::new(b)),
    }
}

/// `a - b` on terms, as the operator builds it.
pub open spec fn sub_term(a: Term, b: Term) -> Term {
    match a {
        Term::Negation(x) => match b {
            Term::Negation(y) => Term::Negation(Box::new(Term::Addition(x, Box::new(Term::Negation(y))))),
            _ => Term::Negation(Box::new(Term::Addition(x, Box::new(b)))),
        },
        _ => match b {
            Term::Negation(y) => Term::Addition(Box::new(a), y),
            _ => Term::Addition(Box::new(a), Box::new(Term::Negation(Box::new(b)))),
        },
    }
}

/// `a * b` on terms, as the operator builds it.
pub open spec fn mul_term(a: Term, b: Term) -> Term {
    match a {
        Term::Negation(x) => match b {
            Term::Negation(y) => Term::Multiplication(x, y),
            _ => Term::Negation(Box::new(Term::Multiplication(x, Box::new(b)))),
        },
        _ => match b {
            Term::Negation(y) => Term::Negation(Box::new(Term::Multiplication(Box::new(a), y))),
            _ => Term::Multiplication(Box::new(a), Box::new(b)),
        },
    }
}

/// The basis vector that a list of labels gives: zero when a label repeats,
/// else the canonical vector (`ket` or bra) carrying the accumulated sign.
pub open spec fn basis_of(labels: Seq<Seq<char>>, ket: bool) -> Expr {
    let (sign, c) = build_spec(labels);
    let v = if ket { Expr::FermionKet(c) } else { Expr::FermionBra(c) };
    match sign {
        StateChangeResult::SignPositive => v,
        StateChangeResult::SignNegative => neg_of(v),
        StateChangeResult::StateIsZero => Expr::Integer(0),
    }
}

impl Term {
    /// The named scalar `name`.
    pub fn new_symbol(name: &str) -> (r: Term)
        ensures
            r@ == Expr::Symbol(name@),
    {
        Term::Symbol(name.to_owned())
    }

    /// The annihilation operator of mode `name`.
    pub fn f(name: &str) -> (r: Term)
        ensures
            r@ == Expr::Annihilation(name@),
    {
        Term::Annihilation(name.to_owned())
    }

    /// The creation operator of mode `name`.
    pub fn fd(name: &str) -> (r: Term)
        ensures
            r@ == Expr::Creation(name@),
    {
        Term::Creation(name.to_owned())
    }

    /// The ket of the modes `states`, created from the last to the first:
    /// zero if a mode repeats, else the canonical ket, negated when the
    /// reordering is odd.
    pub fn new_ket(states: Vec<&str>) -> (r: Term)
        ensures
            r@ == basis_of(states@.map_values(|s: &str| s@), true),
    {
        let (result, container) = StateContainer::new(states);
        match result {
            StateChangeResult::SignPositive => Term::FermionKet(container),
            StateChangeResult::SignNegative => Term::negate(Term::FermionKet(container)),
            StateChangeResult::StateIsZero => Term::Integer(0),
        }
    }

    /// The bra of the modes `states`, signed as `new_ket` is.
    pub fn new_bra(states: Vec<&str>) -> (r: Term)
        ensures
            r@ == basis_of(states@.map_values(|s: &str| s@), false),
    {
        let (result, container) = StateContainer::new(states);
        match result {
            StateChangeResult::SignPositive => Term::FermionBra(container),
            StateChangeResult::SignNegative => Term::negate(Term::FermionBra(container)),
            StateChangeResult::StateIsZero => Term::Integer(0),
        }
    }

    /// `-a`, normalised as `neg_of` says.
    pub fn negate(a: Term) -> (r: Term)
        ensures
            r == neg_term(a),
            r@ == neg_of(a@),
    {
        proof {
            reveal_with_fuel(model, 2);
        }
        match a {
            Term::Integer(0) => a,
            Term::Negation(inner) => *inner,
            _ => Term::Negation(Box::new(a)),
        }
    }

    /// `a + b`, normalised as `add_of` says.
    pub fn plus(a: Term, b: Term) -> (r: Term)
        ensures
            r == add_term(a, b),
            r@ == add_of(a@, b@),
    {
        proof {
            reveal_with_fuel(model, 3);
        }
        match a {
            Term::Negation(x) => match b {
                Term::Negation(y) => Term::Negation(Box::new(Term::Addition(x, y))),
                _ => Term::Negation(Box::new(Term::Addition(x, Box::new(Term::Negation(Box::new(b)))))),
            },
            _ => Term::Addition(Box::new(a), Box::new(b)),
        }
    }

    /// `a - b`, normalised as `sub_of` says.
    pub fn minus(a: Term, b: Term) -> (r: Term)
        ensures
            r == sub_term(a, b),
            r@ == sub_of(a@, b@),
    {
        proof {
            reveal_with_fuel(model, 3);
        }
        match a {
            Term::Negation(x) => match b {
                Term::Negation(y) => Term::Negation(Box::new(Term::Addition(x, Box::new(Term::Negation(y))))),
                _ => Term::Negation(Box::new(Term::Addition(x, Box::new(b)))),
            },
            _ => match b {
                Term::Negation(y) => Term::Addition(Box::new(a), y),
                _ => Term::Addition(Box::new(a), Box::new(Term::Negation(Box::new(b)))),
            },
        }
    }

    /// `a * b`, normalised as `mul_of` says.
    pub fn times(a: Term, b: Term) -> (r: Term)
        ensures
            r == mul_term(a, b),
            r@ == mul_of(a@, b@),
    {
        proof {
            reveal_with_fuel(model, 3);
        }
        match a {
            Term::Negation(x) => match b {
                Term::Negation(y) => Term::Multiplication(x, y),
                _ => Term::Negation(Box::new(Term::Multiplication(x, Box::new(b)))),
            },
            _ => match b {
                Term::Negation(y) => Term::Negation(Box::new(Term::Multiplication(Box::new(a), y))),
                _ => Term::Multiplication(Box::new(a), Box::new(b)),
            },
        }
    }

    /// A deep copy.
    pub fn duplicate(&self) -> (r: Term)
        ensures
            r@ == self@,
        decreases self,
    {
        match self {
            Term::Integer(n) => Term::Integer(*n),
            Term::Symbol(s) => Term::Symbol(s.clone()),
            Term::Addition(a, b) => Term::Addition(Box::new(a.duplicate()), Box::new(b.duplicate())),
            Term::Multiplication(a, b) => Term::Multiplication(Box::new(a.duplicate()), Box::new(b.duplicate())),
            Term::Negation(a) => Term::Negation(Box::new(a.duplicate())),
            Term::FermionKet(c) => Term::FermionKet(c.duplicate()),
            Term::FermionBra(c) => Term::FermionBra(c.duplicate()),
            Term::Creation(s) => Term::Creation(s.clone()),
            Term::Annihilation(s) => Term::Annihilation(s.clone()),
        }
    }

    /// Structural equality: same shape, same numbers, names, labels and states.
    pub fn same(&self, other: &Term) -> (r: bool)
        ensures
            r == (self@ == other@),
        decreases self,
    {
        match (self, other) {
            (Term::Integer(a), Term::Integer(b)) => *a == *b,
            (Term::Symbol(a), Term::Symbol(b)) => *a == *b,
            (Term::Addition(a, b), Term::Addition(c, d)) => a.same(c) && b.same(d),
            (Term::Multiplication(a, b), Term::Multiplication(c, d)) => a.same(c) && b.same(d),
            (Term::Negation(a), Term::Negation(c)) => a.same(c),
            (Term::FermionKet(a), Term::FermionKet(b)) => a.same(b),
            (Term::FermionBra(a), Term::FermionBra(b)) => a.same(b),
            (Term::Creation(a), Term::Creation(b)) => *a == *b,
            (Term::Annihilation(a), Term::Annihilation(b)) => *a == *b,
            _ => false,
        }
    }
}

impl Clone for Term {
    fn clone(&self) -> (r: Term)
        ensures
            r@ == self@,
    {
        self.duplicate()
    }
}

impl PartialEq for Term {
    fn eq(&self, other: &Term) -> (r: bool) {
        self.same(other)
    }
}

impl vstd::std_specs::cmp::PartialEqSpecImpl for Term {
    open spec fn obeys_eq_spec() -> bool {
        true
    }

    open spec fn eq_spec(&self, other: &Term) -> bool {
        self@ == other@
    }
}

impl std::ops::Neg for Term {
    type Output = Term;

    fn neg(self) -> (r: Term) {
        Term::negate(self)
    }
}

impl vstd::std_specs::ops::NegSpecImpl for Term {
    open spec fn obeys_neg_spec() -> bool {
        true
    }

    open spec fn neg_req(self) -> bool {
        true
    }

    open spec fn neg_spec(self) -> Term {
        neg_term(self)
    }
}

impl std::ops::Add for Term {
    type Output = Term;

    fn add(self, rhs: Term) -> (r: Term) {
        Term::plus(self, rhs)
    }
}

impl vstd::std_specs::ops::AddSpecImpl for Term {
    open spec fn obeys_add_spec() -> bool {
        true
    }

    open spec fn add_req(self, rhs: Term) -> bool {
        true
    }

    open spec fn add_spec(self, rhs: Term) -> Term {
        add_term(self, rhs)
    }
}

impl std::ops::Sub for Term {
    type Output = Term;

    fn sub(self, rhs: Term) -> (r: Term) {
        Term::minus(self, rhs)
    }
}

impl vstd::std_specs::ops::SubSpecImpl for Term {
    open spec fn obeys_sub_spec() -> bool {
        true
    }

    open spec fn sub_req(self, rhs: Term) -> bool {
        true
    }

    open spec fn sub_spec(self, rhs: Term) -> Term {
        sub_term(self, rhs)
    }
}

impl std::ops::Mul for Term {
    type Output = Term;

    fn mul(self, rhs: Term) -> (r: Term) {
        Term::times(self, rhs)
    }
}

impl vstd::std_specs::ops::MulSpecImpl for Term {
    open spec fn obeys_mul_spec() -> bool {
        true
    }

    open spec fn mul_req(self, rhs: Term) -> bool {
        true
    }

    open spec fn mul_spec(self, rhs: Term) -> Term {
        mul_term(self, rhs)
    }
}

} // verus!
