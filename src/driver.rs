use vstd::prelude::*;
use crate::term::Expr;
use crate::term::Term;
use crate::term::add_of;
use crate::term::sub_of;
use crate::term::mul_of;
use crate::term::basis_of;
use crate::expand::expand_of;

verus! {

/// `e` after `n` rewrite passes.
pub open spec fn expand_steps(e: Expr, n: nat) -> Expr
    decreases n,
{
    if n == 0 {
        e
    } else {
        expand_of(expand_steps(e, (n - 1) as nat))
    }
}

/// Whether the iteration from `e` stops after `k` passes: the `k`-th result
/// equals the one before it (before the first pass, it is compared with zero).
pub open spec fn settles_at(e: Expr, k: nat) -> bool {
    if k == 0 {
        e == Expr::Integer(0)
    } else {
        expand_steps(e, k) == expand_steps(e, (k - 1) as nat)
    }
}

/// Applies `expand` until two consecutive results are equal, within at most
/// `max_steps` passes; `None` when they did not settle within that budget.
pub fn normal_form(term: Term, max_steps: u64) -> (r: Option<Term>)
    ensures
        r is Some ==> exists|k: nat|
            k <= max_steps && settles_at(term@, k) && r->0@ == expand_steps(term@, k)
                && forall|j: nat| j < k ==> !settles_at(term@, j),
        r is None ==> forall|k: nat| k <= max_steps ==> !settles_at(term@, k),
{
    let ghost start = term@;
    let mut old_term = Term::Integer(0);
    let mut current = term;
    let mut steps: u64 = 0;
    while !old_term.same(&current)
        invariant
            steps <= max_steps,
            start == term@,
            current@ == expand_steps(start, steps as nat),
            steps == 0 ==> old_term@ == Expr::Integer(0),
            steps > 0 ==> old_term@ == expand_steps(start, (steps - 1) as nat),
            forall|j: nat| j < steps ==> !settles_at(start, j),
        decreases max_steps - steps,
    {
        if steps == max_steps {
            assert forall|k: nat| k <= max_steps implies !settles_at(start, k) by {
                if k == steps {
                }
            }
            return None;
        }
        assert(!settles_at(start, steps as nat));
        old_term = current.duplicate();
        current = current.expand();
        steps = steps + 1;
        assert forall|j: nat| j < steps implies !settles_at(start, j) by {
            if j < steps - 1 {
            }
        }
    }
    assert(settles_at(start, steps as nat));
    Some(current)
}

/// The product ⟨bra| h |ket⟩ that a matrix element starts from.
pub open spec fn sandwich(bra: Seq<Seq<char>>, ket: Seq<Seq<char>>, h: Expr) -> Expr {
    mul_of(mul_of(basis_of(bra, false), h), basis_of(ket, true))
}

/// The matrix element ⟨bra_state| hamiltonian |ket_state⟩, driven to its
/// normal form within `max_steps` rewrite passes.
pub fn calculate_matrix_element(bra_state: Vec<&str>, ket_state: Vec<&str>, hamiltonian: Term, max_steps: u64) -> (r: Option<Term>)
    ensures
        ({
            let start = sandwich(
                bra_state@.map_values(|s: &str| s@),
                ket_state@.map_values(|s: &str| s@),
                hamiltonian@,
            );
            &&& r is Some ==> exists|k: nat|
                k <= max_steps && settles_at(start, k) && r->0@ == expand_steps(start, k)
                    && forall|j: nat| j < k ==> !settles_at(start, j)
            &&& r is None ==> forall|k: nat| k <= max_steps ==> !settles_at(start, k)
        }),
{
    let term = Term::times(Term::times(Term::new_bra(bra_state), hamiltonian), Term::new_ket(ket_state));
    normal_form(term, max_steps)
}

/// The terms added up from the left, starting from zero.
pub open spec fn fold_sum(terms: Seq<Expr>) -> Expr
    decreases terms.len(),
{
    if terms.len() == 0 {
        Expr::Integer(0)
    } else {
        add_of(fold_sum(terms.drop_last()), terms.last())
    }
}

/// The views of a list of terms.
pub open spec fn views(terms: Seq<Term>) -> Seq<Expr> {
    terms.map_values(|t: Term| t@)
}

impl Term {
    /// The terms added up from the left, starting from zero, then given one
    /// rewrite pass.
    pub fn sum(terms: Vec<Term>) -> (r: Term)
        ensures
            r@ == expand_of(fold_sum(views(terms@))),
    {
        let mut acc = Term::Integer(0);
        let mut i: usize = 0;
        while i < terms.len()
            invariant
                i <= terms@.len(),
                acc@ == fold_sum(views(terms@).take(i as int)),
            decreases terms@.len() - i,
        {
            assert(views(terms@).take(i + 1).drop_last() =~= views(terms@).take(i as int));
            acc = Term::plus(acc, terms[i].duplicate());
            i = i + 1;
        }
        assert(views(terms@).take(i as int) =~= views(terms@));
        acc.expand()
    }
}

/// The named scalar `E`.
pub open spec fn energy_scale() -> Expr {
    Expr::Symbol(seq!['E'])
}

/// The named scalar `J`.
pub open spec fn coupling() -> Expr {
    Expr::Symbol(seq!['J'])
}

/// `E * e_i * c_s† * c_s` for each mode `s` with its energy `e_i`.
pub open spec fn onsite_terms(energies: Seq<Expr>, states: Seq<Seq<char>>) -> Seq<Expr> {
    Seq::new(
        states.len(),
        |i: int|
            mul_of(
                mul_of(mul_of(energy_scale(), energies[i]), Expr::Creation(states[i])),
                Expr::Annihilation(states[i]),
            ),
    )
}

/// `c_x† * c_y` for every ordered pair of modes, `x` in the outer position.
pub open spec fn hopping_terms(states: Seq<Seq<char>>) -> Seq<Expr> {
    Seq::new(
        states.len() * states.len(),
        |k: int| mul_of(Expr::Creation(states[k / (states.len() as int)]), Expr::Annihilation(states[k % (states.len() as int)])),
    )
}

/// The model Hamiltonian over spin-up and spin-down modes of equal energies:
/// on-site energies scaled by `E`, plus `J` times the up hoppings, minus `J`
/// times the down hoppings.
pub open spec fn hamiltonian_of(up: Seq<Seq<char>>, down: Seq<Seq<char>>, energies: Seq<Expr>) -> Expr {
    let h_up = expand_of(fold_sum(onsite_terms(energies, up)));
    let h_down = expand_of(fold_sum(onsite_terms(energies, down)));
    let ww_up = expand_of(fold_sum(hopping_terms(up)));
    let ww_down = expand_of(fold_sum(hopping_terms(down)));
    sub_of(add_of(add_of(h_up, h_down), mul_of(coupling(), ww_up)), mul_of(coupling(), ww_down))
}

fn onsite_sum(energies: &Vec<Term>, states: &Vec<&str>) -> (r: Term)
    requires
        energies@.len() == states@.len(),
    ensures
        r@ == expand_of(fold_sum(onsite_terms(views(energies@), states@.map_values(|s: &str| s@)))),
{
    let ghost target = onsite_terms(views(energies@), states@.map_values(|s: &str| s@));
    let mut terms: Vec<Term> = Vec::new();
    let mut i: usize = 0;
    while i < states.len()
        invariant
            i <= states@.len(),
            energies@.len() == states@.len(),
            target == onsite_terms(views(energies@), states@.map_values(|s: &str| s@)),
            views(terms@) == target.take(i as int),
        decreases states@.len() - i,
    {
        let s: &str = states[i];
        proof {
            reveal_strlit("E");
        }
        let t = Term::times(
            Term::times(Term::times(Term::new_symbol("E"), energies[i].duplicate()), Term::fd(s)),
            Term::f(s),
        );
        assert("E"@ =~= seq!['E']);
        assert(t@ == target[i as int]);
        let ghost before = terms@;
        terms.push(t);
        assert(views(terms@) =~= views(before).push(target[i as int]));
        assert(views(terms@) =~= target.take(i + 1));
        i = i + 1;
    }
    assert(target.take(i as int) =~= target);
    Term::sum(terms)
}

fn hopping_sum(states: &Vec<&str>) -> (r: Term)
    requires
        states@.len() * states@.len() <= usize::MAX,
    ensures
        r@ == expand_of(fold_sum(hopping_terms(states@.map_values(|s: &str| s@)))),
{
    let ghost labels = states@.map_values(|s: &str| s@);
    let ghost target = hopping_terms(labels);
    let n = states.len();
    let mut terms: Vec<Term> = Vec::new();
    let mut x: usize = 0;
    while x < n
        invariant
            n == states@.len(),
            n * n <= usize::MAX,
            labels == states@.map_values(|s: &str| s@),
            target == hopping_terms(labels),
            x <= n,
            views(terms@) == target.take((x * n) as int),
        decreases n - x,
    {
        let mut y: usize = 0;
        proof {
            assert(x * n + n <= n * n) by (nonlinear_arith)
                requires
                    x < n,
            ;
        }
        while y < n
            invariant
                n == states@.len(),
                n * n <= usize::MAX,
                labels == states@.map_values(|s: &str| s@),
                target == hopping_terms(labels),
                x < n,
                y <= n,
                x * n + n <= n * n,
                views(terms@) == target.take((x * n + y) as int),
            decreases n - y,
        {
            let t = Term::times(Term::fd(states[x]), Term::f(states[y]));
            proof {
                let k = (x * n + y) as int;
                assert(k / (n as int) == x as int && k % (n as int) == y as int) by (nonlinear_arith)
                    requires
                        k == x * n + y,
                        y < n,
                ;
                assert(target[k] == t@);
            }
            let ghost before = terms@;
            terms.push(t);
            assert(views(terms@) =~= views(before).push(target[(x * n + y) as int]));
            assert(views(terms@) =~= target.take((x * n + y + 1) as int));
            y = y + 1;
        }
        assert((x + 1) * n == x * n + n) by (nonlinear_arith);
        x = x + 1;
    }
    assert(target.take((x * n) as int) =~= target);
    Term::sum(terms)
}

/// The error when the up and down mode lists differ in length.
pub const DOWN_MISMATCH: &'static str = "Upstate must have same amount of elements as Downstates";

/// The error when the mode lists and the energies differ in length.
pub const ENERGY_MISMATCH: &'static str = "Upstate must have same amount of elements as Energies";

/// The model Hamiltonian; an error when the three lists differ in length.
pub fn prepare_hamiltonian(upstates: Vec<&str>, downstates: Vec<&str>, energies: Vec<Term>) -> (r: Result<Term, String>)
    requires
        upstates@.len() * upstates@.len() <= usize::MAX,
        downstates@.len() * downstates@.len() <= usize::MAX,
    ensures
        r is Ok <==> upstates@.len() == downstates@.len() && upstates@.len() == energies@.len(),
        upstates@.len() != downstates@.len() ==> r is Err && r->Err_0@ == DOWN_MISMATCH@,
        upstates@.len() == downstates@.len() && upstates@.len() != energies@.len() ==> r is Err
            && r->Err_0@ == ENERGY_MISMATCH@,
        r is Ok ==> r->Ok_0@ == hamiltonian_of(
            upstates@.map_values(|s: &str| s@),
            downstates@.map_values(|s: &str| s@),
            views(energies@),
        ),
{
    if upstates.len() != downstates.len() {
        return Err(DOWN_MISMATCH.to_owned());
    }
    if upstates.len() != energies.len() {
        return Err(ENERGY_MISMATCH.to_owned());
    }
    proof {
        reveal_strlit("J");
        assert("J"@ =~= seq!['J']);
    }
    let h_up = onsite_sum(&energies, &upstates);
    let h_down = onsite_sum(&energies, &downstates);
    let h_ww_up = hopping_sum(&upstates);
    let h_ww_down = hopping_sum(&downstates);
    Ok(Term::minus(
        Term::plus(Term::plus(h_up, h_down), Term::times(Term::new_symbol("J"), h_ww_up)),
        Term::times(Term::new_symbol("J"), h_ww_down),
    ))
}

} // verus!
