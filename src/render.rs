use vstd::prelude::*;
use vstd::string::StringExecFns;
use crate::state::StateContainer;
use crate::term::Expr;
use crate::term::Term;

verus! {

/// The decimal digits of `n`, most significant first.
pub open spec fn decimal(n: nat) -> Seq<char>
    decreases n,
{
    if n < 10 {
        seq![digit_char(n)]
    } else {
        decimal(n / 10) + seq![digit_char(n % 10)]
    }
}

/// The character of a decimal digit.
pub open spec fn digit_char(d: nat) -> char {
    if d == 0 { '0' }
    else if d == 1 { '1' }
    else if d == 2 { '2' }
    else if d == 3 { '3' }
    else if d == 4 { '4' }
    else if d == 5 { '5' }
    else if d == 6 { '6' }
    else if d == 7 { '7' }
    else if d == 8 { '8' }
    else { '9' }
}

/// Labels separated by `", "`.
pub open spec fn joined(c: Seq<Seq<char>>) -> Seq<char>
    decreases c.len(),
{
    if c.len() == 0 {
        Seq::empty()
    } else if c.len() == 1 {
        c[0]
    } else {
        joined(c.drop_last()) + seq![',', ' '] + c.last()
    }
}

/// The text of a tree: sums in parentheses (a negated right side shown as a
/// difference), products in brackets joined by `⋅`, kets as `|…⟩`, bras as
/// `⟨…|`, creation as `c_label†` and annihilation as `c_label`.
pub open spec fn text_of(e: Expr) -> Seq<char>
    decreases e,
{
    match e {
        Expr::Integer(n) => decimal(n as nat),
        Expr::Symbol(s) => s,
        Expr::Addition(a, b) => match *b {
            Expr::Negation(inner) => seq!['('] + text_of(*a) + seq![' ', '-', ' '] + text_of(*inner) + seq![')'],
            _ => seq!['('] + text_of(*a) + seq![' ', '+', ' '] + text_of(*b) + seq![')'],
        },
        Expr::Multiplication(a, b) => seq!['['] + text_of(*a) + seq!['⋅'] + text_of(*b) + seq![']'],
        Expr::Negation(a) => seq!['-'] + text_of(*a),
        Expr::FermionKet(c) => seq!['|'] + joined(c) + seq!['⟩'],
        Expr::FermionBra(c) => seq!['⟨'] + joined(c) + seq!['|'],
        Expr::Creation(s) => seq!['c', '_'] + s + seq!['†'],
        Expr::Annihilation(s) => seq!['c', '_'] + s,
    }
}

fn push_digit(out: &mut String, d: u64)
    requires
        d < 10,
    ensures
        final(out)@ == old(out)@ + seq![digit_char(d as nat)],
{
    proof {
        reveal_strlit("0");
        reveal_strlit("1");
        reveal_strlit("2");
        reveal_strlit("3");
        reveal_strlit("4");
        reveal_strlit("5");
        reveal_strlit("6");
        reveal_strlit("7");
        reveal_strlit("8");
        reveal_strlit("9");
    }
    let ghost before = out@;
    if d == 0 { out.append("0"); }
    else if d == 1 { out.append("1"); }
    else if d == 2 { out.append("2"); }
    else if d == 3 { out.append("3"); }
    else if d == 4 { out.append("4"); }
    else if d == 5 { out.append("5"); }
    else if d == 6 { out.append("6"); }
    else if d == 7 { out.append("7"); }
    else if d == 8 { out.append("8"); }
    else { out.append("9"); }
    assert(out@ =~= before + seq![digit_char(d as nat)]);
}

fn push_decimal(out: &mut String, n: u64)
    ensures
        final(out)@ == old(out)@ + decimal(n as nat),
    decreases n,
{
    if n >= 10 {
        push_decimal(out, n / 10);
    }
    push_digit(out, n % 10);
    assert(old(out)@ + decimal(n as nat) =~= if n >= 10 {
        old(out)@ + decimal((n / 10) as nat) + seq![digit_char((n % 10) as nat)]
    } else {
        old(out)@ + seq![digit_char((n % 10) as nat)]
    });
}

/// Appends `s`, as a literal whose characters are `c`.
fn push_text(out: &mut String, s: &str)
    ensures
        final(out)@ == old(out)@ + s@,
{
    out.append(s);
}

impl StateContainer {
    /// The labels separated by `", "`.
    pub fn render(&self) -> (r: String)
        ensures
            r@ == joined(self@),
    {
        let labels = self.labels();
        let ghost c = self@;
        let mut out = String::new();
        let mut i: usize = 0;
        proof {
            reveal_strlit(", ");
            assert(c.take(0) =~= Seq::<Seq<char>>::empty());
        }
        while i < labels.len()
            invariant
                crate::state::labels_of(labels@) == c,
                i <= c.len(),
                out@ == joined(c.take(i as int)),
            decreases c.len() - i,
        {
            assert(c.take(i + 1).drop_last() =~= c.take(i as int));
            assert(labels@[i as int]@ == c[i as int]);
            proof {
                reveal_strlit(", ");
            }
            if i > 0 {
                push_text(&mut out, ", ");
            } else {
                assert(joined(c.take(0)) =~= Seq::<char>::empty());
            }
            push_text(&mut out, labels[i].as_str());
            proof {
                if i == 0 {
                    assert(out@ =~= c.take(1)[0]);
                } else {
                    assert(out@ =~= joined(c.take(i as int)) + seq![',', ' '] + c.take(i + 1).last());
                }
            }
            i = i + 1;
        }
        assert(c.take(i as int) =~= c);
        out
    }
}

impl Term {
    fn render_into(&self, out: &mut String)
        ensures
            final(out)@ == old(out)@ + text_of(self@),
        decreases self,
    {
        proof {
            reveal_strlit("(");
            reveal_strlit(")");
            reveal_strlit(" - ");
            reveal_strlit(" + ");
            reveal_strlit("[");
            reveal_strlit("]");
            reveal_strlit("⋅");
            reveal_strlit("-");
            reveal_strlit("|");
            reveal_strlit("⟩");
            reveal_strlit("⟨");
            reveal_strlit("c_");
            reveal_strlit("†");
        }
        let ghost before = out@;
        match self {
            Term::Integer(n) => {
                push_decimal(out, *n);
                assert(out@ =~= before + text_of(self@));
            },
            Term::Symbol(name) => {
                push_text(out, name.as_str());
                assert(out@ =~= before + text_of(self@));
            },
            Term::Addition(a, b) => {
                push_text(out, "(");
                a.render_into(out);
                match &**b {
                    Term::Negation(inner) => {
                        assert(b@ == Expr::Negation(Box::new(inner@)));
                        push_text(out, " - ");
                        inner.render_into(out);
                    },
                    _ => {
                        assert(!(b@ is Negation));
                        push_text(out, " + ");
                        b.render_into(out);
                    },
                }
                push_text(out, ")");
                assert(out@ =~= before + text_of(self@));
            },
            Term::Multiplication(a, b) => {
                push_text(out, "[");
                a.render_into(out);
                push_text(out, "⋅");
                b.render_into(out);
                push_text(out, "]");
                assert(out@ =~= before + text_of(self@));
            },
            Term::Negation(a) => {
                push_text(out, "-");
                a.render_into(out);
                assert(out@ =~= before + text_of(self@));
            },
            Term::FermionKet(c) => {
                push_text(out, "|");
                let t = c.render();
                push_text(out, t.as_str());
                push_text(out, "⟩");
                assert(out@ =~= before + text_of(self@));
            },
            Term::FermionBra(c) => {
                push_text(out, "⟨");
                let t = c.render();
                push_text(out, t.as_str());
                push_text(out, "|");
                assert(out@ =~= before + text_of(self@));
            },
            Term::Creation(s) => {
                push_text(out, "c_");
                push_text(out, s.as_str());
                push_text(out, "†");
                assert(out@ =~= before + text_of(self@));
            },
            Term::Annihilation(s) => {
                push_text(out, "c_");
                push_text(out, s.as_str());
                assert(out@ =~= before + text_of(self@));
            },
        }
    }

    /// The text of the tree, as `text_of` spells it.
    pub fn render(&self) -> (r: String)
        ensures
            r@ == text_of(self@),
    {
        let mut out = String::new();
        self.render_into(&mut out);
        assert(out@ =~= text_of(self@));
        out
    }
}

} // verus!
