use quantum::StateChangeResult;
use quantum::StateContainer;
use quantum::Term;
use quantum::calculate_matrix_element;
use quantum::normal_form;
use quantum::prepare_hamiltonian;

const BUDGET: u64 = 1000;

fn sym(name: &str) -> Term {
    Term::new_symbol(name)
}

fn container(labels: Vec<&str>) -> StateContainer {
    let (_, c) = StateContainer::new(labels);
    c
}

#[test]
fn create_present_label_gives_zero_and_empties() {
    let mut c = container(vec!["a", "b"]);
    assert_eq!(c.create(String::from("a")), StateChangeResult::StateIsZero);
    assert!(c.labels().is_empty());
}

#[test]
fn annihilate_absent_label_gives_zero_and_empties() {
    let mut c = container(vec!["a", "b"]);
    assert_eq!(c.annihilate(String::from("z")), StateChangeResult::StateIsZero);
    assert!(c.labels().is_empty());
}

#[test]
fn create_signs_follow_sorted_position() {
    let mut c = container(vec!["b"]);
    assert_eq!(c.create(String::from("c")), StateChangeResult::SignNegative);
    assert_eq!(c.labels(), vec![String::from("b"), String::from("c")]);
    assert_eq!(c.create(String::from("a")), StateChangeResult::SignPositive);
    assert_eq!(c.labels(), vec![String::from("a"), String::from("b"), String::from("c")]);
    assert_eq!(c.create(String::from("bb")), StateChangeResult::SignPositive);
    assert_eq!(
        c.labels(),
        vec![String::from("a"), String::from("b"), String::from("bb"), String::from("c")]
    );
}

#[test]
fn annihilate_signs_follow_position() {
    let mut c = container(vec!["a", "b", "c"]);
    assert_eq!(c.annihilate(String::from("b")), StateChangeResult::SignNegative);
    assert_eq!(c.labels(), vec![String::from("a"), String::from("c")]);
    assert_eq!(c.annihilate(String::from("a")), StateChangeResult::SignPositive);
    assert_eq!(c.labels(), vec![String::from("c")]);
}

#[test]
fn labels_sort_by_code_point() {
    let c = container(vec!["b↑", "a↓", "Z", "a↑"]);
    assert_eq!(
        c.labels(),
        vec![String::from("Z"), String::from("a↑"), String::from("a↓"), String::from("b↑")]
    );
}

#[test]
fn constructor_sign_from_reverse_insertion() {
    let (sign, c) = StateContainer::new(vec!["b", "a"]);
    assert_eq!(sign, StateChangeResult::SignNegative);
    assert_eq!(c.labels(), vec![String::from("a"), String::from("b")]);
    let (sign, _) = StateContainer::new(vec!["a", "b"]);
    assert_eq!(sign, StateChangeResult::SignPositive);
    let (sign, _) = StateContainer::new(vec!["a", "b", "a"]);
    assert_eq!(sign, StateChangeResult::StateIsZero);
}

#[test]
fn repeated_label_ket_is_zero() {
    assert_eq!(Term::new_ket(vec!["a", "a"]), Term::Integer(0));
    assert_eq!(Term::new_bra(vec!["x", "y", "x"]), Term::Integer(0));
}

#[test]
fn swapped_labels_give_negated_ket() {
    let ab = Term::new_ket(vec!["a", "b"]);
    let ba = Term::new_ket(vec!["b", "a"]);
    assert_eq!(ab, -ba.clone());
    assert_eq!(ba, Term::Negation(Box::new(Term::FermionKet(container(vec!["a", "b"])))));
    assert_eq!(Term::new_bra(vec!["a", "b"]), -Term::new_bra(vec!["b", "a"]));
}

#[test]
fn inner_product_same_state_is_one() {
    let t = Term::new_bra(vec!["a", "b"]) * Term::new_ket(vec!["a", "b"]);
    assert_eq!(t.expand(), Term::Integer(1));
    let t = Term::new_bra(vec!["x"]) * Term::new_ket(vec!["x"]);
    assert_eq!(t.expand(), Term::Integer(1));
}

#[test]
fn inner_product_different_states_is_zero() {
    let t = Term::new_bra(vec!["a", "b"]) * Term::new_ket(vec!["a", "c"]);
    assert_eq!(t.expand(), Term::Integer(0));
    let t = Term::new_bra(vec!["a"]) * Term::new_ket(vec!["a", "b"]);
    assert_eq!(t.expand(), Term::Integer(0));
}

#[test]
fn inner_product_direct() {
    let one = Term::inner_product(container(vec!["p", "q"]), container(vec!["q", "p"]));
    assert_eq!(one, Term::Integer(1));
    let zero = Term::inner_product(container(vec!["p"]), container(vec!["q"]));
    assert_eq!(zero, Term::Integer(0));
}

#[test]
fn negation_rules() {
    assert_eq!(-Term::Integer(0), Term::Integer(0));
    assert_eq!(-(-sym("x")), sym("x"));
    assert_eq!(-sym("x"), Term::Negation(Box::new(sym("x"))));
}

#[test]
fn addition_hoists_left_negation() {
    let t = -sym("a") + sym("b");
    let expected = Term::Negation(Box::new(Term::Addition(
        Box::new(sym("a")),
        Box::new(Term::Negation(Box::new(sym("b")))),
    )));
    assert_eq!(t, expected);
    let t = -sym("a") + -sym("b");
    let expected = Term::Negation(Box::new(Term::Addition(Box::new(sym("a")), Box::new(sym("b")))));
    assert_eq!(t, expected);
    let t = sym("a") + -sym("b");
    let expected = Term::Addition(Box::new(sym("a")), Box::new(Term::Negation(Box::new(sym("b")))));
    assert_eq!(t, expected);
}

#[test]
fn subtraction_rules() {
    let t = sym("a") - sym("b");
    let expected = Term::Addition(Box::new(sym("a")), Box::new(Term::Negation(Box::new(sym("b")))));
    assert_eq!(t, expected);
    let t = sym("a") - -sym("b");
    assert_eq!(t, Term::Addition(Box::new(sym("a")), Box::new(sym("b"))));
    let t = -sym("a") - sym("b");
    let expected = Term::Negation(Box::new(Term::Addition(Box::new(sym("a")), Box::new(sym("b")))));
    assert_eq!(t, expected);
    let t = -sym("a") - -sym("b");
    let expected = Term::Negation(Box::new(Term::Addition(
        Box::new(sym("a")),
        Box::new(Term::Negation(Box::new(sym("b")))),
    )));
    assert_eq!(t, expected);
}

#[test]
fn multiplication_hoists_negations() {
    let t = -sym("a") * sym("b");
    let expected = Term::Negation(Box::new(Term::Multiplication(Box::new(sym("a")), Box::new(sym("b")))));
    assert_eq!(t, expected);
    let t = sym("a") * -sym("b");
    assert_eq!(t, expected);
    let t = -sym("a") * -sym("b");
    assert_eq!(t, Term::Multiplication(Box::new(sym("a")), Box::new(sym("b"))));
}

#[test]
fn multiplying_by_zero_and_one() {
    let t = Term::fd("a") * Term::new_ket(vec!["b"]);
    assert_eq!((t.clone() * Term::Integer(0)).expand(), Term::Integer(0));
    assert_eq!((Term::Integer(0) * t.clone()).expand(), Term::Integer(0));
    assert_eq!((t.clone() * Term::Integer(1)).expand(), t.clone());
    assert_eq!((Term::Integer(1) * t.clone()).expand(), t);
}

#[test]
fn fixed_point_is_stable() {
    let h = sym("E") * Term::fd("a") * Term::f("a");
    let t = Term::new_bra(vec!["a"]) * h * Term::new_ket(vec!["a"]);
    let fixed = normal_form(t, BUDGET).unwrap();
    assert_eq!(fixed.clone().expand(), fixed);
    assert_eq!(fixed.clone().expand().expand(), fixed);
}

#[test]
fn sum_distributes_over_product() {
    let a = Term::fd("a");
    let b = Term::fd("b");
    let c = Term::new_ket(vec!["c"]);
    let left = (a.clone() + b.clone()) * c.clone();
    let one_pass = left.clone().expand();
    let expected = (a.clone().expand() * c.clone().expand()) + (b.clone().expand() * c.clone().expand());
    assert_eq!(one_pass, expected);
    let right = a * c.clone() + b * c;
    assert_eq!(normal_form(left, BUDGET), normal_form(right, BUDGET));
}

#[test]
fn creation_on_ket() {
    let t = Term::fd("a") * Term::new_ket(vec!["b"]);
    assert_eq!(t.expand(), Term::new_ket(vec!["a", "b"]));
    let t = Term::fd("c") * Term::new_ket(vec!["b"]);
    assert_eq!(t.expand(), -Term::FermionKet(container(vec!["b", "c"])));
    let t = Term::fd("b") * Term::new_ket(vec!["b"]);
    assert_eq!(t.expand(), Term::Integer(0));
}

#[test]
fn annihilation_on_ket() {
    let t = Term::f("b") * Term::new_ket(vec!["a", "b"]);
    assert_eq!(t.expand(), -Term::FermionKet(container(vec!["a"])));
    let t = Term::f("z") * Term::new_ket(vec!["a"]);
    assert_eq!(t.expand(), Term::Integer(0));
}

#[test]
fn scalar_moves_left_of_ket() {
    let t = Term::new_ket(vec!["a"]) * sym("g");
    assert_eq!(t.expand(), sym("g") * Term::new_ket(vec!["a"]));
}

#[test]
fn operator_chain_without_ket_stays() {
    let t = Term::fd("a") * Term::f("b");
    assert_eq!(t.clone().expand(), t);
}

#[test]
fn onsite_element_diagonal() {
    let h = sym("E") * Term::fd("a") * Term::f("a");
    let r = calculate_matrix_element(vec!["a"], vec!["a"], h, BUDGET);
    assert_eq!(r, Some(sym("E")));
}

#[test]
fn onsite_element_off_diagonal() {
    let h = sym("E") * Term::fd("a") * Term::f("a");
    let r = calculate_matrix_element(vec!["b"], vec!["a"], h, BUDGET);
    assert_eq!(r, Some(Term::Integer(0)));
}

#[test]
fn hopping_element() {
    let h = Term::fd("a") * Term::f("b");
    let r = calculate_matrix_element(vec!["a"], vec!["b"], h.clone(), BUDGET);
    assert_eq!(r, Some(Term::Integer(1)));
    let r = calculate_matrix_element(vec!["b"], vec!["a"], h, BUDGET);
    assert_eq!(r, Some(Term::Integer(0)));
}

#[test]
fn zero_budget_reports_no_convergence() {
    let h = Term::fd("a") * Term::f("b");
    assert_eq!(calculate_matrix_element(vec!["a"], vec!["b"], h, 0), None);
    assert_eq!(normal_form(Term::Integer(0), 0), Some(Term::Integer(0)));
}

#[test]
fn sum_adds_from_zero_then_expands() {
    let s = Term::sum(vec![sym("a"), sym("b")]);
    let expected = Term::Addition(Box::new(sym("a")), Box::new(sym("b")));
    assert_eq!(s, expected);
    assert_eq!(Term::sum(vec![]), Term::Integer(0));
}

#[test]
fn hamiltonian_length_mismatch() {
    let r = prepare_hamiltonian(vec!["a"], vec!["b", "c"], vec![Term::Integer(1)]);
    assert_eq!(r, Err(String::from("Upstate must have same amount of elements as Downstates")));
    let r = prepare_hamiltonian(vec!["a"], vec!["b"], vec![]);
    assert_eq!(r, Err(String::from("Upstate must have same amount of elements as Energies")));
}

#[test]
fn hamiltonian_single_mode_elements() {
    let h = prepare_hamiltonian(vec!["u"], vec!["d"], vec![Term::Integer(3)]).unwrap();
    let up = calculate_matrix_element(vec!["u"], vec!["u"], h.clone(), BUDGET).unwrap();
    let down = calculate_matrix_element(vec!["d"], vec!["d"], h.clone(), BUDGET).unwrap();
    let cross = calculate_matrix_element(vec!["u"], vec!["d"], h, BUDGET).unwrap();
    assert_eq!(normal_form(up.clone(), BUDGET), Some(up.clone()));
    assert_eq!(normal_form(down.clone(), BUDGET), Some(down));
    assert_eq!(cross.clone().expand(), cross);
    assert_ne!(up, Term::Integer(0));
}

#[test]
fn render_scalars_and_operators() {
    assert_eq!(Term::Integer(0).render(), "0");
    assert_eq!(Term::Integer(1234567890123).render(), "1234567890123");
    assert_eq!(sym("E").render(), "E");
    assert_eq!(Term::fd("a↑").render(), "c_a↑†");
    assert_eq!(Term::f("x").render(), "c_x");
}

#[test]
fn render_sums_products_and_negations() {
    assert_eq!((sym("a") + sym("b")).render(), "(a + b)");
    assert_eq!((sym("a") - sym("b")).render(), "(a - b)");
    assert_eq!((sym("E") * Term::fd("a")).render(), "[E⋅c_a†]");
    assert_eq!((-sym("a")).render(), "-a");
    assert_eq!((-sym("a") + sym("b")).render(), "-(a - b)");
}

#[test]
fn render_basis_vectors() {
    assert_eq!(Term::new_ket(vec!["b", "a"]).render(), "-|a, b⟩");
    assert_eq!(Term::new_bra(vec!["a"]).render(), "⟨a|");
    assert_eq!(Term::new_ket(vec![]).render(), "|⟩");
    assert_eq!(container(vec!["c", "a", "b"]).render(), "a, b, c");
}
