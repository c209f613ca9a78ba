use vstd::prelude::*;
use crate::label::label_lt;
use crate::label::lemma_label_lt_irreflexive;
use crate::label::lemma_label_lt_total;
use crate::state::build_spec;
use crate::state::count_below;
use crate::term::Expr;
use crate::term::neg_of;
use crate::term::add_of;
use crate::term::mul_of;
use crate::term::basis_of;
use crate::expand::expand_of;
use crate::expand::reduce_of;

verus! {

/// A bra against a ket of the same basis state reduces to one; against a ket
/// of a different basis state, to zero.
pub proof fn lemma_inner_product(s: Seq<Seq<char>>, t: Seq<Seq<char>>)
    ensures
        expand_of(Expr::Multiplication(Box::new(Expr::FermionBra(s)), Box::new(Expr::FermionKet(s))))
            == Expr::Integer(1),
        s != t ==> expand_of(Expr::Multiplication(Box::new(Expr::FermionBra(s)), Box::new(Expr::FermionKet(t))))
            == Expr::Integer(0),
{
    assert(reduce_of(Expr::FermionBra(s), Expr::FermionKet(s)) == Expr::Integer(1));
    assert(reduce_of(Expr::FermionBra(s), Expr::FermionKet(t)) == crate::expand::inner_product_of(s, t));
}

/// Building a basis vector from two distinct labels in the opposite order
/// gives its exact negation.
pub proof fn lemma_swap_two_labels(a: Seq<char>, b: Seq<char>, ket: bool)
    requires
        a != b,
    ensures
        basis_of(seq![a, b], ket) == neg_of(basis_of(seq![b, a], ket)),
{
    lemma_label_lt_total(a, b);
    lemma_label_lt_irreflexive(a);
    lemma_label_lt_irreflexive(b);
    let e = Seq::<Seq<char>>::empty();
    assert(seq![a, b].drop_first() =~= seq![b]);
    assert(seq![b, a].drop_first() =~= seq![a]);
    assert(seq![b].drop_first() =~= e);
    assert(seq![a].drop_first() =~= e);
    assert(!e.contains(a) && !e.contains(b));
    assert(count_below(e, a) == 0 && count_below(e, b) == 0);
    assert(build_spec(e) == (crate::state::StateChangeResult::SignPositive, e));
    assert(build_spec(seq![b]) == (crate::state::StateChangeResult::SignPositive, e.insert(0, b)));
    assert(build_spec(seq![a]) == (crate::state::StateChangeResult::SignPositive, e.insert(0, a)));
    assert(e.insert(0, b) =~= seq![b]);
    assert(e.insert(0, a) =~= seq![a]);
    assert(seq![b].drop_last() =~= e);
    assert(seq![a].drop_last() =~= e);
    reveal_with_fuel(count_below, 2);
    assert(!seq![b].contains(a)) by {
        assert(seq![b][0] == b);
    }
    assert(!seq![a].contains(b)) by {
        assert(seq![a][0] == a);
    }
    if label_lt(a, b) && label_lt(b, a) {
        crate::label::lemma_label_lt_transitive(a, b, a);
    }
    assert(seq![b].last() == b && seq![a].last() == a);
    if label_lt(a, b) {
        assert(count_below(seq![b], a) == 0);
        assert(count_below(seq![a], b) == 1);
        assert(seq![b].insert(0, a) =~= seq![a, b]);
        assert(seq![a].insert(1, b) =~= seq![a, b]);
    } else {
        assert(count_below(seq![b], a) == 1);
        assert(count_below(seq![a], b) == 0);
        assert(seq![b].insert(1, a) =~= seq![b, a]);
        assert(seq![a].insert(0, b) =~= seq![b, a]);
    }
}

/// Once a pass leaves a tree unchanged, every further pass does too.
pub proof fn lemma_fixed_point_stays(t: Expr)
    requires
        expand_of(t) == t,
    ensures
        expand_of(expand_of(t)) == t,
{
}

/// A product with zero on either side reduces to zero; a product with one on
/// either side reduces to the other factor.
pub proof fn lemma_multiplicative_units(t: Expr)
    ensures
        expand_of(Expr::Multiplication(Box::new(t), Box::new(Expr::Integer(0)))) == Expr::Integer(0),
        expand_of(Expr::Multiplication(Box::new(Expr::Integer(0)), Box::new(t))) == Expr::Integer(0),
        expand_of(Expr::Multiplication(Box::new(t), Box::new(Expr::Integer(1)))) == t,
        expand_of(Expr::Multiplication(Box::new(Expr::Integer(1)), Box::new(t))) == t,
{
    assert(reduce_of(t, Expr::Integer(0)) == Expr::Integer(0));
    assert(reduce_of(Expr::Integer(0), t) == Expr::Integer(0));
    assert(reduce_of(t, Expr::Integer(1)) == t);
    assert(reduce_of(Expr::Integer(1), t) == t);
}

/// A sum times a factor other than the literals zero and one distributes in
/// one pass: `(a + b) * c` becomes `a' * c' + b' * c'`, where `'` is one pass.
pub proof fn lemma_distributes(a: Expr, b: Expr, c: Expr)
    requires
        c != Expr::Integer(0),
        c != Expr::Integer(1),
    ensures
        expand_of(Expr::Multiplication(Box::new(Expr::Addition(Box::new(a), Box::new(b))), Box::new(c)))
            == add_of(mul_of(expand_of(a), expand_of(c)), mul_of(expand_of(b), expand_of(c))),
{
    assert(reduce_of(Expr::Addition(Box::new(a), Box::new(b)), c)
        == add_of(mul_of(expand_of(a), expand_of(c)), mul_of(expand_of(b), expand_of(c))));
}

} // verus!
