use vstd::prelude::*;
use crate::state::StateChangeResult;
use crate::state::create_spec;
use crate::state::annihilate_spec;
use crate::term::Expr;
use crate::term::neg_of;
use crate::term::add_of;
use crate::term::mul_of;
use crate::term::Term;
use crate::state::StateContainer;

verus! {

/// Integers and symbols: the factors that commute with everything.
pub open spec fn is_scalar(e: Expr) -> bool {
    e is Integer || e is Symbol
}

/// A size that counts a product as twice the product of its factors' sizes and
/// ignores negations; no rewrite step makes it grow.
pub open spec fn weight(e: Expr) -> nat
    decreases e,
{
    match e {
        Expr::Addition(a, b) => weight(*a) + weight(*b) + 1,
        Expr::Multiplication(a, b) => 2 * weight(*a) * weight(*b),
        Expr::Negation(a) => weight(*a),
        _ => 1,
    }
}

/// A node count in which a single operator counts double.
pub open spec fn rank(e: Expr) -> nat
    decreases e,
{
    match e {
        Expr::Addition(a, b) => rank(*a) + rank(*b) + 1,
        Expr::Multiplication(a, b) => rank(*a) + rank(*b) + 1,
        Expr::Negation(a) => rank(*a) + 1,
        Expr::Creation(_) => 2,
        Expr::Annihilation(_) => 2,
        _ => 1,
    }
}

/// The number of nodes.
pub open spec fn size(e: Expr) -> nat
    decreases e,
{
    match e {
        Expr::Addition(a, b) => size(*a) + size(*b) + 1,
        Expr::Multiplication(a, b) => size(*a) + size(*b) + 1,
        Expr::Negation(a) => size(*a) + 1,
        _ => 1,
    }
}

pub proof fn lemma_weight_pos(e: Expr)
    ensures
        weight(e) >= 1,
    decreases e,
{
    match e {
        Expr::Addition(a, b) => {
            lemma_weight_pos(*a);
        },
        Expr::Multiplication(a, b) => {
            lemma_weight_pos(*a);
            lemma_weight_pos(*b);
            assert(2 * weight(*a) * weight(*b) >= 1) by (nonlinear_arith)
                requires
                    weight(*a) >= 1,
                    weight(*b) >= 1,
            ;
        },
        Expr::Negation(a) => {
            lemma_weight_pos(*a);
        },
        _ => {},
    }
}

pub proof fn lemma_mul_le(a: int, b: int, c: int, d: int)
    requires
        0 <= a <= c,
        0 <= b <= d,
    ensures
        a * b <= c * d,
{
    assert(a * b <= c * d) by (nonlinear_arith)
        requires
            0 <= a <= c,
            0 <= b <= d,
    ;
}

/// The facts on weights that make every call of `reduce_of` and `expand_of` smaller.
pub proof fn lemma_measure(l: Expr, r: Expr)
    ensures
        weight(l) >= 1,
        weight(r) >= 1,
        weight(l) < 2 * weight(l) * weight(r),
        weight(r) < 2 * weight(l) * weight(r),
        l is Multiplication ==> 2 * weight(*l->Multiplication_1) * weight(r) < 2 * weight(l) * weight(r),
        l is Multiplication ==> 2 * weight(*l->Multiplication_0) * (2 * weight(*l->Multiplication_1) * weight(r))
            == 2 * weight(l) * weight(r),
        r is Multiplication ==> 2 * weight(l) * weight(*r->Multiplication_1) < 2 * weight(l) * weight(r),
        r is Multiplication && weight(l) == 1 ==> 2 * weight(*r->Multiplication_0) * weight(*r->Multiplication_1)
            < 2 * weight(l) * weight(r),
        r is Addition ==> 2 * weight(l) * weight(*r->Addition_0) < 2 * weight(l) * weight(r),
        r is Addition ==> 2 * weight(l) * weight(*r->Addition_1) < 2 * weight(l) * weight(r),
{
    lemma_weight_pos(l);
    lemma_weight_pos(r);
    let a = weight(l) as int;
    let b = weight(r) as int;
    assert(a < 2 * a * b && b < 2 * a * b) by (nonlinear_arith)
        requires
            a >= 1,
            b >= 1,
    ;
    if let Expr::Multiplication(x, y) = l {
        lemma_weight_pos(*x);
        lemma_weight_pos(*y);
        let p = weight(*x) as int;
        let q = weight(*y) as int;
        assert(2 * q * b < 2 * (2 * p * q) * b && 2 * p * (2 * q * b) == 2 * (2 * p * q) * b) by (nonlinear_arith)
            requires
                p >= 1,
                q >= 1,
                b >= 1,
        ;
    }
    if let Expr::Multiplication(x, y) = r {
        lemma_weight_pos(*x);
        lemma_weight_pos(*y);
        let p = weight(*x) as int;
        let q = weight(*y) as int;
        assert(2 * a * q < 2 * a * (2 * p * q)) by (nonlinear_arith)
            requires
                p >= 1,
                q >= 1,
                a >= 1,
        ;
        assert(a == 1 ==> 2 * p * q < 2 * a * (2 * p * q)) by (nonlinear_arith)
            requires
                p >= 1,
                q >= 1,
        ;
    }
    if let Expr::Addition(x, y) = r {
        let p = weight(*x) as int;
        let q = weight(*y) as int;
        assert(2 * a * p < 2 * a * (p + q + 1) && 2 * a * q < 2 * a * (p + q + 1)) by (nonlinear_arith)
            requires
                p >= 0,
                q >= 0,
                a >= 1,
        ;
    }
}

/// The overlap of two basis states: one when they hold the same labels, else zero.
pub open spec fn inner_product_of(bra: Seq<Seq<char>>, ket: Seq<Seq<char>>) -> Expr {
    if bra == ket {
        Expr::Integer(1)
    } else {
        Expr::Integer(0)
    }
}

/// A signed outcome applied to a ket: zero, the ket, or its negation.
pub open spec fn signed_ket(outcome: StateChangeResult, c: Seq<Seq<char>>) -> Expr {
    match outcome {
        StateChangeResult::SignPositive => Expr::FermionKet(c),
        StateChangeResult::SignNegative => neg_of(Expr::FermionKet(c)),
        StateChangeResult::StateIsZero => Expr::Integer(0),
    }
}

/// One pass of rewriting over a tree.
pub open spec fn expand_of(e: Expr) -> Expr
    decreases weight(e), rank(e), 0nat,
{
    match e {
        Expr::Addition(a, b) => {
            if *a == Expr::Integer(0) {
                *b
            } else if *b == Expr::Integer(0) {
                *a
            } else {
                add_of(expand_of(*a), expand_of(*b))
            }
        },
        Expr::Multiplication(a, b) => {
            proof {
                lemma_measure(*a, *b);
            }
            reduce_of(*a, *b)
        },
        Expr::Negation(a) => neg_of(expand_of(*a)),
        _ => e,
    }
}

/// One pass of rewriting over the product `l * r`: scalars move left, sums
/// distribute, operators act on the ket to their right, a bra meets a ket in
/// an inner product.
pub open spec fn reduce_of(l: Expr, r: Expr) -> Expr
    decreases 2 * weight(l) * weight(r), rank(l), size(r),
{
    proof {
        lemma_measure(l, r);
    }
    if r == Expr::Integer(0) {
        Expr::Integer(0)
    } else if r == Expr::Integer(1) {
        l
    } else {
        match l {
            Expr::Integer(n) => {
                if n == 0 {
                    Expr::Integer(0)
                } else if n == 1 {
                    r
                } else {
                    match r {
                        Expr::Addition(a, b) => add_of(mul_of(l, expand_of(*a)), mul_of(l, expand_of(*b))),
                        _ => mul_of(l, expand_of(r)),
                    }
                }
            },
            Expr::Symbol(_) => match r {
                Expr::Integer(_) => mul_of(r, l),
                Expr::Negation(t) => if *t is Integer {
                    mul_of(neg_of(*t), l)
                } else {
                    mul_of(l, neg_of(*t))
                },
                Expr::Addition(a, b) => add_of(mul_of(l, expand_of(*a)), mul_of(l, expand_of(*b))),
                _ => mul_of(l, expand_of(r)),
            },
            Expr::Addition(a, b) => {
                let er = expand_of(r);
                add_of(mul_of(expand_of(*a), er), mul_of(expand_of(*b), er))
            },
            Expr::Multiplication(a, b) => {
                let inner = reduce_of(*b, r);
                if weight(inner) <= 2 * weight(*b) * weight(r) {
                    proof {
                        lemma_mul_le((2 * weight(*a)) as int, weight(inner) as int, (2 * weight(*a)) as int, (2 * weight(*b) * weight(r)) as int);
                    }
                    reduce_of(*a, inner)
                } else {
                    // never taken: see lemma_reduce_weight
                    Expr::Integer(0)
                }
            },
            Expr::Negation(a) => neg_of(mul_of(expand_of(*a), expand_of(r))),
            Expr::FermionKet(_) => match r {
                Expr::Integer(_) => mul_of(r, l),
                Expr::Symbol(_) => mul_of(r, l),
                Expr::Addition(a, b) => add_of(mul_of(l, expand_of(*a)), mul_of(l, expand_of(*b))),
                _ => mul_of(l, expand_of(r)),
            },
            Expr::FermionBra(bra) => match r {
                Expr::Integer(_) => mul_of(r, l),
                Expr::Symbol(_) => mul_of(r, l),
                Expr::Addition(a, b) => add_of(mul_of(l, expand_of(*a)), mul_of(l, expand_of(*b))),
                Expr::FermionKet(ket) => inner_product_of(bra, ket),
                Expr::Multiplication(a, b) => if is_scalar(*a) {
                    mul_of(*a, reduce_of(l, *b))
                } else {
                    mul_of(l, reduce_of(*a, *b))
                },
                _ => mul_of(l, expand_of(r)),
            },
            _ => match r {
                Expr::Addition(a, b) => add_of(reduce_of(l, *a), reduce_of(l, *b)),
                Expr::Multiplication(a, b) => if is_scalar(*a) {
                    mul_of(*a, reduce_of(l, *b))
                } else {
                    mul_of(l, reduce_of(*a, *b))
                },
                Expr::Negation(t) => neg_of(reduce_of(l, *t)),
                Expr::FermionKet(c) => match l {
                    Expr::Creation(s) => {
                        let (outcome, next) = create_spec(c, s);
                        signed_ket(outcome, next)
                    },
                    Expr::Annihilation(s) => {
                        let (outcome, next) = annihilate_spec(c, s);
                        signed_ket(outcome, next)
                    },
                    _ => mul_of(l, r),
                },
                Expr::FermionBra(_) => mul_of(l, r),
                Expr::Creation(_) => mul_of(l, r),
                Expr::Annihilation(_) => mul_of(l, r),
                _ => reduce_of(r, l),
            },
        }
    }
}

/// The constructors keep the weight as the definition of `weight` reads it.
pub proof fn lemma_builders_weight(a: Expr, b: Expr)
    ensures
        weight(neg_of(a)) == weight(a),
        weight(add_of(a, b)) == weight(a) + weight(b) + 1,
        weight(mul_of(a, b)) == 2 * weight(a) * weight(b),
{
    reveal_with_fuel(weight, 3);
}

/// A pass of rewriting never makes a tree heavier.
pub proof fn lemma_expand_weight(e: Expr)
    ensures
        weight(expand_of(e)) <= weight(e),
    decreases weight(e), rank(e), 0nat,
{
    match e {
        Expr::Addition(a, b) => {
            if *a != Expr::Integer(0) && *b != Expr::Integer(0) {
                lemma_expand_weight(*a);
                lemma_expand_weight(*b);
                lemma_builders_weight(expand_of(*a), expand_of(*b));
            }
        },
        Expr::Multiplication(a, b) => {
            lemma_measure(*a, *b);
            lemma_reduce_weight(*a, *b);
        },
        Expr::Negation(a) => {
            lemma_expand_weight(*a);
            lemma_builders_weight(expand_of(*a), *a);
        },
        _ => {},
    }
}

/// Reducing `l * r` gives at most the weight of the product node.
pub proof fn lemma_reduce_weight(l: Expr, r: Expr)
    ensures
        weight(reduce_of(l, r)) <= 2 * weight(l) * weight(r),
    decreases 2 * weight(l) * weight(r), rank(l), size(r),
{
    lemma_measure(l, r);
    let big = 2 * weight(l) * weight(r);
    if r == Expr::Integer(0) {
        assert(reduce_of(l, r) == Expr::Integer(0));
    } else if r == Expr::Integer(1) {
        assert(reduce_of(l, r) == l);
    } else {
        match l {
            Expr::Integer(_) => {
                lemma_commuting_arm(l, r);
            },
            Expr::Symbol(_) => {
                lemma_commuting_arm(l, r);
            },
            Expr::FermionKet(_) => {
                lemma_commuting_arm(l, r);
            },
            Expr::Addition(a, b) => {
                let er = expand_of(r);
                lemma_expand_weight(r);
                lemma_expand_weight(*a);
                lemma_expand_weight(*b);
                lemma_builders_weight(expand_of(*a), er);
                lemma_builders_weight(expand_of(*b), er);
                lemma_builders_weight(mul_of(expand_of(*a), er), mul_of(expand_of(*b), er));
                let p = weight(expand_of(*a)) as int;
                let q = weight(expand_of(*b)) as int;
                let x = weight(er) as int;
                let pa = weight(*a) as int;
                let qb = weight(*b) as int;
                let w = weight(r) as int;
                assert(2 * p * x + 2 * q * x + 1 <= 2 * (pa + qb + 1) * w) by (nonlinear_arith)
                    requires
                        0 <= p <= pa,
                        0 <= q <= qb,
                        0 <= x <= w,
                        w >= 1,
                ;
            },
            Expr::Multiplication(a, b) => {
                lemma_reduce_weight(*b, r);
                let inner = reduce_of(*b, r);
                lemma_mul_le((2 * weight(*a)) as int, weight(inner) as int, (2 * weight(*a)) as int, (2 * weight(*b) * weight(r)) as int);
                lemma_reduce_weight(*a, inner);
            },
            Expr::Negation(a) => {
                lemma_expand_weight(*a);
                lemma_expand_weight(r);
                lemma_builders_weight(expand_of(*a), expand_of(r));
                lemma_builders_weight(mul_of(expand_of(*a), expand_of(r)), r);
                lemma_mul_le((2 * weight(expand_of(*a))) as int, weight(expand_of(r)) as int, (2 * weight(*a)) as int, weight(r) as int);
            },
            Expr::FermionBra(_) => {
                assert(weight(l) == 1);
                assert(big == 2 * weight(r));
                lemma_builders_weight(r, l);
                lemma_expand_weight(r);
                lemma_builders_weight(l, expand_of(r));
                match r {
                    Expr::Addition(a, b) => {
                        lemma_expand_weight(*a);
                        lemma_expand_weight(*b);
                        lemma_builders_weight(l, expand_of(*a));
                        lemma_builders_weight(l, expand_of(*b));
                        lemma_builders_weight(mul_of(l, expand_of(*a)), mul_of(l, expand_of(*b)));
                    },
                    Expr::Multiplication(a, b) => {
                        lemma_multiplication_arm(l, *a, *b);
                    },
                    _ => {},
                }
            },
            _ => {
                assert(weight(l) == 1);
                assert(big == 2 * weight(r));
                match r {
                    Expr::Addition(a, b) => {
                        lemma_reduce_weight(l, *a);
                        lemma_reduce_weight(l, *b);
                        lemma_builders_weight(reduce_of(l, *a), reduce_of(l, *b));
                    },
                    Expr::Multiplication(a, b) => {
                        lemma_multiplication_arm(l, *a, *b);
                    },
                    Expr::Negation(t) => {
                        lemma_reduce_weight(l, *t);
                        lemma_builders_weight(reduce_of(l, *t), l);
                    },
                    Expr::FermionKet(c) => {
                        reveal_with_fuel(weight, 2);
                    },
                    Expr::FermionBra(_) | Expr::Creation(_) | Expr::Annihilation(_) => {
                        lemma_builders_weight(l, r);
                    },
                    _ => {
                        lemma_reduce_weight(r, l);
                    },
                }
            },
        }
    }
}

/// The bound for a scalar or a ket on the left.
proof fn lemma_commuting_arm(l: Expr, r: Expr)
    requires
        is_scalar(l) || l is FermionKet,
        r != Expr::Integer(0),
        r != Expr::Integer(1),
    ensures
        weight(reduce_of(l, r)) <= 2 * weight(l) * weight(r),
    decreases 2 * weight(l) * weight(r), rank(l), size(r), 0nat,
{
    lemma_measure(l, r);
    lemma_builders_weight(l, r);
    lemma_builders_weight(r, l);
    lemma_expand_weight(r);
    lemma_builders_weight(l, expand_of(r));
    assert(weight(l) == 1);
    assert(2 * weight(l) * weight(r) == 2 * weight(r));
    match r {
        Expr::Addition(a, b) => {
            lemma_expand_weight(*a);
            lemma_expand_weight(*b);
            lemma_builders_weight(l, expand_of(*a));
            lemma_builders_weight(l, expand_of(*b));
            lemma_builders_weight(mul_of(l, expand_of(*a)), mul_of(l, expand_of(*b)));
        },
        Expr::Negation(t) => {
            lemma_builders_weight(*t, l);
            lemma_builders_weight(neg_of(*t), l);
            lemma_builders_weight(l, neg_of(*t));
        },
        _ => {},
    }
}

/// The bound for a bra or an operator against a product `a * b`.
proof fn lemma_multiplication_arm(l: Expr, a: Expr, b: Expr)
    requires
        weight(l) == 1,
        rank(l) <= 2,
    ensures
        ({
            let r = Expr::Multiplication(Box::new(a), Box::new(b));
            &&& is_scalar(a) ==> weight(mul_of(a, reduce_of(l, b))) <= 2 * weight(l) * weight(r)
            &&& !is_scalar(a) ==> weight(mul_of(l, reduce_of(a, b))) <= 2 * weight(l) * weight(r)
        }),
    decreases 2 * weight(l) * (2 * weight(a) * weight(b)), rank(l), size(b) + size(a) + 1, 0nat,
{
    let r = Expr::Multiplication(Box::new(a), Box::new(b));
    lemma_measure(l, r);
    lemma_reduce_weight(l, b);
    lemma_reduce_weight(a, b);
    lemma_builders_weight(a, reduce_of(l, b));
    lemma_builders_weight(l, reduce_of(a, b));
    lemma_weight_pos(a);
    lemma_weight_pos(b);
    let wl = weight(l) as int;
    let wa = weight(a) as int;
    let wb = weight(b) as int;
    let x = weight(reduce_of(l, b)) as int;
    let y = weight(reduce_of(a, b)) as int;
    assert(weight(r) == 2 * wa * wb);
    assert(2 * wa * x <= 2 * wl * (2 * wa * wb) && 2 * wl * y <= 2 * wl * (2 * wa * wb)) by (nonlinear_arith)
        requires
            wl == 1,
            wa >= 1,
            wb >= 1,
            x <= 2 * wl * wb,
            y <= 2 * wa * wb,
    ;
}

impl Term {
    /// Whether this is the literal `n`.
    pub fn is_integer_literal(&self, n: u64) -> (r: bool)
        ensures
            r == (self@ == Expr::Integer(n)),
    {
        match self {
            Term::Integer(m) => *m == n,
            _ => false,
        }
    }

    /// Whether this is an integer literal.
    pub fn is_integer(&self) -> (r: bool)
        ensures
            r == self@ is Integer,
    {
        match self {
            Term::Integer(_) => true,
            _ => false,
        }
    }

    /// Whether this is an integer or a symbol.
    pub fn is_scalar(&self) -> (r: bool)
        ensures
            r == is_scalar(self@),
    {
        match self {
            Term::Integer(_) => true,
            Term::Symbol(_) => true,
            _ => false,
        }
    }

    /// One rewrite pass over the tree; iterate it to reach the normal form.
    pub fn expand(self) -> (r: Term)
        ensures
            r@ == expand_of(self@),
        decreases weight(self@), rank(self@), 0nat,
    {
        match self {
            Term::Addition(lhs, rhs) => {
                if lhs.is_integer_literal(0) {
                    return *rhs;
                } else if rhs.is_integer_literal(0) {
                    return *lhs;
                }
                Term::plus((*lhs).expand(), (*rhs).expand())
            },
            Term::Multiplication(lhs, rhs) => {
                proof {
                    lemma_measure(lhs@, rhs@);
                }
                Term::expand_multiplication(*lhs, *rhs)
            },
            Term::Negation(inner) => Term::negate((*inner).expand()),
            _ => self,
        }
    }

    /// The overlap of two basis states.
    pub fn inner_product(bra_state: StateContainer, ket_state: StateContainer) -> (r: Term)
        ensures
            r@ == inner_product_of(bra_state@, ket_state@),
    {
        if bra_state.same(&ket_state) {
            Term::Integer(1)
        } else {
            Term::Integer(0)
        }
    }

    /// The ket that an operator's outcome leaves: zero, the ket, or its negation.
    fn signed(outcome: StateChangeResult, states: StateContainer) -> (r: Term)
        ensures
            r@ == signed_ket(outcome, states@),
    {
        match outcome {
            StateChangeResult::SignPositive => Term::FermionKet(states),
            StateChangeResult::SignNegative => Term::negate(Term::FermionKet(states)),
            StateChangeResult::StateIsZero => Term::Integer(0),
        }
    }

    /// One rewrite pass over the product `lhs * rhs`.
    pub fn expand_multiplication(lhs: Term, rhs: Term) -> (r: Term)
        ensures
            r@ == reduce_of(lhs@, rhs@),
        decreases 2 * weight(lhs@) * weight(rhs@), rank(lhs@), size(rhs@),
    {
        let ghost lv = lhs@;
        let ghost rv = rhs@;
        proof {
            lemma_measure(lv, rv);
        }
        if rhs.is_integer_literal(0) {
            return Term::Integer(0);
        } else if rhs.is_integer_literal(1) {
            return lhs;
        }
        match lhs {
            Term::Integer(n) => {
                if n == 0 {
                    Term::Integer(0)
                } else if n == 1 {
                    rhs
                } else {
                    match rhs {
                        Term::Addition(a, b) => Term::plus(
                            Term::times(Term::Integer(n), (*a).expand()),
                            Term::times(Term::Integer(n), (*b).expand()),
                        ),
                        _ => Term::times(lhs, rhs.expand()),
                    }
                }
            },
            Term::Symbol(_) => match rhs {
                Term::Integer(_) => Term::times(rhs, lhs),
                Term::Negation(t) => {
                    if t.is_integer() {
                        Term::times(Term::negate(*t), lhs)
                    } else {
                        Term::times(lhs, Term::negate(*t))
                    }
                },
                Term::Addition(a, b) => Term::plus(
                    Term::times(lhs.duplicate(), (*a).expand()),
                    Term::times(lhs, (*b).expand()),
                ),
                _ => Term::times(lhs, rhs.expand()),
            },
            Term::Addition(a, b) => {
                let er = rhs.expand();
                Term::plus(Term::times((*a).expand(), er.duplicate()), Term::times((*b).expand(), er))
            },
            Term::Multiplication(a, b) => {
                let ghost av = a@;
                let ghost bv = b@;
                let inner = Term::expand_multiplication(*b, rhs);
                proof {
                    lemma_reduce_weight(bv, rv);
                    lemma_mul_le((2 * weight(av)) as int, weight(inner@) as int, (2 * weight(av)) as int, (2 * weight(bv) * weight(rv)) as int);
                }
                Term::expand_multiplication(*a, inner)
            },
            Term::Negation(a) => Term::negate(Term::times((*a).expand(), rhs.expand())),
            Term::FermionKet(_) => match rhs {
                Term::Integer(_) => Term::times(rhs, lhs),
                Term::Symbol(_) => Term::times(rhs, lhs),
                Term::Addition(a, b) => Term::plus(
                    Term::times(lhs.duplicate(), (*a).expand()),
                    Term::times(lhs, (*b).expand()),
                ),
                _ => Term::times(lhs, rhs.expand()),
            },
            Term::FermionBra(bra) => match rhs {
                Term::Integer(_) => Term::times(rhs, Term::FermionBra(bra)),
                Term::Symbol(_) => Term::times(rhs, Term::FermionBra(bra)),
                Term::Addition(a, b) => Term::plus(
                    Term::times(Term::FermionBra(bra.duplicate()), (*a).expand()),
                    Term::times(Term::FermionBra(bra), (*b).expand()),
                ),
                Term::FermionKet(ket) => Term::inner_product(bra, ket),
                Term::Multiplication(a, b) => {
                    if a.is_scalar() {
                        Term::times(*a, Term::expand_multiplication(Term::FermionBra(bra), *b))
                    } else {
                        Term::times(Term::FermionBra(bra), Term::expand_multiplication(*a, *b))
                    }
                },
                _ => Term::times(Term::FermionBra(bra), rhs.expand()),
            },
            _ => match rhs {
                Term::Addition(a, b) => Term::plus(
                    Term::expand_multiplication(lhs.duplicate(), *a),
                    Term::expand_multiplication(lhs, *b),
                ),
                Term::Multiplication(a, b) => {
                    if a.is_scalar() {
                        Term::times(*a, Term::expand_multiplication(lhs, *b))
                    } else {
                        Term::times(lhs, Term::expand_multiplication(*a, *b))
                    }
                },
                Term::Negation(t) => Term::negate(Term::expand_multiplication(lhs, *t)),
                Term::FermionKet(mut states) => match lhs {
                    Term::Creation(s) => {
                        let outcome = states.create(s);
                        Term::signed(outcome, states)
                    },
                    Term::Annihilation(s) => {
                        let outcome = states.annihilate(s);
                        Term::signed(outcome, states)
                    },
                    _ => Term::times(lhs, Term::FermionKet(states)),
                },
                Term::FermionBra(_) => Term::times(lhs, rhs),
                Term::Creation(_) => Term::times(lhs, rhs),
                Term::Annihilation(_) => Term::times(lhs, rhs),
                _ => Term::expand_multiplication(rhs, lhs),
            },
        }
    }
}

} // verus!
