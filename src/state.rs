use vstd::prelude::*;
use crate::label::label_lt;
use crate::label::label_less;
use crate::label::lemma_label_lt_irreflexive;
use crate::label::lemma_label_lt_transitive;
use crate::label::lemma_label_lt_total;

verus! {

/// What applying one operator to a basis state did to it: the fermionic sign
/// it picked up, or that the state vanished.
#[derive(Clone, Copy, Debug, PartialEq, Eq, Structural)]
pub enum StateChangeResult {
    SignPositive,
    SignNegative,
    StateIsZero,
}

/// Labels strictly increasing in the canonical order (sorted, no duplicates).
pub open spec fn sorted_labels(c: Seq<Seq<char>>) -> bool {
    forall|i: int, j: int| 0 <= i < j < c.len() ==> label_lt(#[trigger] c[i], #[trigger] c[j])
}

/// How many labels of `c` come before `s` in the canonical order.
pub open spec fn count_below(c: Seq<Seq<char>>, s: Seq<char>) -> nat
    decreases c.len(),
{
    if c.len() == 0 {
        0
    } else {
        count_below(c.drop_last(), s) + if label_lt(c.last(), s) { 1nat } else { 0nat }
    }
}

/// The sign that moving an operator past `pos` occupied modes produces.
pub open spec fn sign_of(pos: nat) -> StateChangeResult {
    if pos % 2 == 0 {
        StateChangeResult::SignPositive
    } else {
        StateChangeResult::SignNegative
    }
}

/// Occupying mode `s`: the empty state and zero if it is already occupied,
/// else `s` inserted at its sorted place, signed by the parity of that place.
pub open spec fn create_spec(c: Seq<Seq<char>>, s: Seq<char>) -> (StateChangeResult, Seq<Seq<char>>) {
    if c.contains(s) {
        (StateChangeResult::StateIsZero, Seq::empty())
    } else {
        (sign_of(count_below(c, s)), c.insert(count_below(c, s) as int, s))
    }
}

/// Emptying mode `s`: removed and signed by the parity of its place, or the
/// empty state and zero if it was not occupied.
pub open spec fn annihilate_spec(c: Seq<Seq<char>>, s: Seq<char>) -> (StateChangeResult, Seq<Seq<char>>) {
    if c.contains(s) {
        (sign_of(count_below(c, s)), c.remove(count_below(c, s) as int))
    } else {
        (StateChangeResult::StateIsZero, Seq::empty())
    }
}

/// Accumulates the outcome of one more step: signs multiply, zero absorbs.
pub open spec fn combine(step: StateChangeResult, acc: StateChangeResult) -> StateChangeResult {
    match step {
        StateChangeResult::SignPositive => acc,
        StateChangeResult::SignNegative => match acc {
            StateChangeResult::SignPositive => StateChangeResult::SignNegative,
            StateChangeResult::SignNegative => StateChangeResult::SignPositive,
            StateChangeResult::StateIsZero => StateChangeResult::StateIsZero,
        },
        StateChangeResult::StateIsZero => StateChangeResult::StateIsZero,
    }
}

/// Builds a basis state by creating the labels from the last to the first,
/// starting from the vacuum; gives the accumulated outcome and the final state.
pub open spec fn build_spec(labels: Seq<Seq<char>>) -> (StateChangeResult, Seq<Seq<char>>)
    decreases labels.len(),
{
    if labels.len() == 0 {
        (StateChangeResult::SignPositive, Seq::empty())
    } else {
        let (acc, c) = build_spec(labels.drop_first());
        let (step, next) = create_spec(c, labels[0]);
        (combine(step, acc), next)
    }
}

/// In a sorted sequence exactly the first `count_below(c, s)` labels come before `s`.
pub proof fn lemma_count_below_prefix(c: Seq<Seq<char>>, s: Seq<char>)
    requires
        sorted_labels(c),
    ensures
        count_below(c, s) <= c.len(),
        forall|j: int| 0 <= j < c.len() ==> (j < count_below(c, s) <==> label_lt(#[trigger] c[j], s)),
    decreases c.len(),
{
    if c.len() > 0 {
        let d = c.drop_last();
        assert(sorted_labels(d)) by {
            assert forall|i: int, j: int| 0 <= i < j < d.len() implies label_lt(#[trigger] d[i], #[trigger] d[j]) by {
                assert(d[i] == c[i] && d[j] == c[j]);
            }
        }
        lemma_count_below_prefix(d, s);
        if label_lt(c.last(), s) {
            assert forall|j: int| 0 <= j < d.len() implies label_lt(#[trigger] d[j], s) by {
                assert(d[j] == c[j]);
                assert(label_lt(c[j], c[c.len() - 1]));
                lemma_label_lt_transitive(c[j], c.last(), s);
            }
            if count_below(d, s) < d.len() {
                let k = count_below(d, s) as int;
                assert(label_lt(d[k], s));
            }
        }
        assert forall|j: int| 0 <= j < c.len() implies (j < count_below(c, s) <==> label_lt(#[trigger] c[j], s)) by {
            if j < d.len() {
                assert(d[j] == c[j]);
            }
        }
    }
}

/// The labels that `v` holds.
pub open spec fn labels_of(v: Seq<String>) -> Seq<Seq<char>> {
    v.map_values(|s: String| s@)
}

/// Appends copies of `v[from..to]` to `r`.
fn append_range(r: &mut Vec<String>, v: &Vec<String>, from: usize, to: usize)
    requires
        from <= to <= v@.len(),
    ensures
        labels_of(final(r)@) == labels_of(old(r)@) + labels_of(v@).subrange(from as int, to as int),
{
    let ghost start = labels_of(r@);
    let mut i: usize = from;
    while i < to
        invariant
            from <= i <= to <= v@.len(),
            labels_of(r@) == start + labels_of(v@).subrange(from as int, i as int),
        decreases to - i,
    {
        let ghost before = r@;
        let t = v[i].clone();
        r.push(t);
        assert(r@ == before.push(v@[i as int]));
        assert(labels_of(r@) =~= labels_of(before).push(v@[i as int]@));
        assert(labels_of(v@).subrange(from as int, i + 1) =~= labels_of(v@).subrange(from as int, i as int).push(v@[i as int]@));
        assert(labels_of(r@) =~= start + labels_of(v@).subrange(from as int, i + 1));
        i = i + 1;
    }
}

/// A copy of `v` with `s` put at `pos`.
fn with_label(v: &Vec<String>, pos: usize, s: String) -> (r: Vec<String>)
    requires
        pos <= v@.len(),
    ensures
        labels_of(r@) == labels_of(v@).insert(pos as int, s@),
{
    let mut r: Vec<String> = Vec::new();
    let ghost e = s@;
    append_range(&mut r, v, 0, pos);
    r.push(s);
    append_range(&mut r, v, pos, v.len());
    assert(labels_of(r@) =~= labels_of(v@).insert(pos as int, e));
    r
}

/// A copy of `v` without the label at `pos`.
fn without_label(v: &Vec<String>, pos: usize) -> (r: Vec<String>)
    requires
        pos < v@.len(),
    ensures
        labels_of(r@) == labels_of(v@).remove(pos as int),
{
    let mut r: Vec<String> = Vec::new();
    append_range(&mut r, v, 0, pos);
    let n = v.len();
    append_range(&mut r, v, pos + 1, n);
    assert(labels_of(r@) =~= labels_of(v@).remove(pos as int));
    r
}

/// The occupied modes of one side of a basis vector, kept in canonical order.
#[derive(Debug)]
pub struct StateContainer {
    states: Vec<String>,
}

impl View for StateContainer {
    type V = Seq<Seq<char>>;

    closed spec fn view(&self) -> Seq<Seq<char>> {
        labels_of(self.states@)
    }
}

impl StateContainer {
    #[verifier::type_invariant]
    spec fn well_formed(&self) -> bool {
        sorted_labels(self@)
    }

    /// The number of labels below `s`, and whether `s` itself is present.
    fn locate(&self, s: &String) -> (r: (usize, bool))
        ensures
            r.0 == count_below(self@, s@),
            r.1 == self@.contains(s@),
    {
        let ghost c = self@;
        let mut below: usize = 0;
        let mut found: bool = false;
        let mut i: usize = 0;
        while i < self.states.len()
            invariant
                c == self@,
                c.len() == self.states@.len(),
                i <= c.len(),
                below == count_below(c.take(i as int), s@),
                below <= i,
                found == c.take(i as int).contains(s@),
            decreases c.len() - i,
        {
            let t = &self.states[i];
            assert(c.take(i + 1).drop_last() =~= c.take(i as int));
            assert(c[i as int] == t@);
            if label_less(t, s) {
                below = below + 1;
            }
            if *t == *s {
                found = true;
                assert(c.take(i + 1)[i as int] == s@);
            } else if found {
                proof {
                    let k = choose|k: int| 0 <= k < i && c.take(i as int)[k] == s@;
                    assert(c.take(i + 1)[k] == s@);
                }
            } else {
                assert forall|k: int| 0 <= k < i + 1 implies #[trigger] c.take(i + 1)[k] != s@ by {
                    if k < i {
                        assert(c.take(i as int)[k] == c.take(i + 1)[k]);
                    }
                }
            }
            i = i + 1;
        }
        assert(c.take(i as int) =~= c);
        (below, found)
    }

    /// Occupies mode `state`, keeping the labels in canonical order.
    pub fn create(&mut self, state: String) -> (r: StateChangeResult)
        ensures
            (r, final(self)@) == create_spec(old(self)@, state@),
    {
        proof {
            use_type_invariant(&*self);
        }
        let ghost c = self@;
        let (pos, found) = self.locate(&state);
        if found {
            self.states = Vec::new();
            assert(self@ =~= Seq::<Seq<char>>::empty());
            StateChangeResult::StateIsZero
        } else {
            proof {
                lemma_count_below_prefix(c, state@);
            }
            let ghost s = state@;
            let states = with_label(&self.states, pos, state);
            assert(labels_of(states@) =~= c.insert(pos as int, s));
            assert(sorted_labels(labels_of(states@))) by {
                let n = labels_of(states@);
                assert forall|i: int, j: int| 0 <= i < j < n.len() implies label_lt(#[trigger] n[i], #[trigger] n[j]) by {
                    if j < pos {
                    } else if j == pos {
                        assert(label_lt(c[i], s));
                    } else if i < pos {
                        assert(n[j] == c[j - 1]);
                        lemma_label_lt_total(c[j - 1], s);
                        lemma_label_lt_transitive(c[i], s, c[j - 1]);
                    } else if i == pos {
                        assert(n[j] == c[j - 1]);
                        lemma_label_lt_total(c[j - 1], s);
                    } else {
                        assert(n[i] == c[i - 1] && n[j] == c[j - 1]);
                    }
                }
            }
            self.states = states;
            if pos % 2 == 0 {
                StateChangeResult::SignPositive
            } else {
                StateChangeResult::SignNegative
            }
        }
    }

    /// Empties mode `state`, keeping the labels in canonical order.
    pub fn annihilate(&mut self, state: String) -> (r: StateChangeResult)
        ensures
            (r, final(self)@) == annihilate_spec(old(self)@, state@),
    {
        proof {
            use_type_invariant(&*self);
        }
        let ghost c = self@;
        let (pos, found) = self.locate(&state);
        if found {
            proof {
                lemma_count_below_prefix(c, state@);
                let k = choose|k: int| 0 <= k < c.len() && c[k] == state@;
                lemma_label_lt_irreflexive(state@);
                if pos < k {
                    assert(label_lt(c[pos as int], c[k]));
                }
            }
            let states = without_label(&self.states, pos);
            assert(labels_of(states@) =~= c.remove(pos as int));
            assert(sorted_labels(labels_of(states@))) by {
                let n = labels_of(states@);
                assert forall|i: int, j: int| 0 <= i < j < n.len() implies label_lt(#[trigger] n[i], #[trigger] n[j]) by {
                    if j < pos {
                    } else if i < pos {
                        assert(n[j] == c[j + 1]);
                    } else {
                        assert(n[i] == c[i + 1] && n[j] == c[j + 1]);
                    }
                }
            }
            self.states = states;
            if pos % 2 == 0 {
                StateChangeResult::SignPositive
            } else {
                StateChangeResult::SignNegative
            }
        } else {
            self.states = Vec::new();
            assert(self@ =~= Seq::<Seq<char>>::empty());
            StateChangeResult::StateIsZero
        }
    }
}

impl StateContainer {
    /// The vacuum: no mode occupied.
    pub fn empty() -> (r: StateContainer)
        ensures
            r@ == Seq::<Seq<char>>::empty(),
    {
        let r = StateContainer { states: Vec::new() };
        assert(r@ =~= Seq::<Seq<char>>::empty());
        r
    }

    /// Creates the labels of `states` from the last to the first, starting from
    /// the vacuum, and gives the accumulated sign (or zero) with the final state.
    pub fn new(states: Vec<&str>) -> (r: (StateChangeResult, StateContainer))
        ensures
            (r.0, r.1@) == build_spec(states@.map_values(|s: &str| s@)),
    {
        let ghost labels = states@.map_values(|s: &str| s@);
        let mut state_container = StateContainer::empty();
        let mut change_result = StateChangeResult::SignPositive;
        let mut i: usize = states.len();
        assert(labels.skip(i as int) =~= Seq::<Seq<char>>::empty());
        while i > 0
            invariant
                i <= states@.len(),
                labels == states@.map_values(|s: &str| s@),
                (change_result, state_container@) == build_spec(labels.skip(i as int)),
            decreases i,
        {
            i = i - 1;
            let state: &str = states[i];
            let step = state_container.create(state.to_owned());
            change_result = match step {
                StateChangeResult::SignPositive => change_result,
                StateChangeResult::SignNegative => match change_result {
                    StateChangeResult::SignPositive => StateChangeResult::SignNegative,
                    StateChangeResult::SignNegative => StateChangeResult::SignPositive,
                    StateChangeResult::StateIsZero => StateChangeResult::StateIsZero,
                },
                StateChangeResult::StateIsZero => StateChangeResult::StateIsZero,
            };
            assert(labels.skip(i as int).drop_first() =~= labels.skip(i + 1));
            assert(labels.skip(i as int)[0] == state@);
        }
        assert(labels.skip(0) =~= labels);
        (change_result, state_container)
    }

    /// The occupied labels, in canonical order.
    pub fn labels(&self) -> (r: Vec<String>)
        ensures
            labels_of(r@) == self@,
    {
        let mut states: Vec<String> = Vec::new();
        append_range(&mut states, &self.states, 0, self.states.len());
        assert(labels_of(states@) =~= self@);
        states
    }

    /// A copy holding the same labels.
    pub fn duplicate(&self) -> (r: StateContainer)
        ensures
            r@ == self@,
    {
        proof {
            use_type_invariant(self);
        }
        let mut states: Vec<String> = Vec::new();
        append_range(&mut states, &self.states, 0, self.states.len());
        assert(labels_of(states@) =~= self@);
        StateContainer { states }
    }

    /// Whether the two containers hold the same labels.
    pub fn same(&self, other: &StateContainer) -> (r: bool)
        ensures
            r == (self@ == other@),
    {
        if self.states.len() != other.states.len() {
            assert(self@.len() != other@.len());
            return false;
        }
        let mut i: usize = 0;
        while i < self.states.len()
            invariant
                self.states@.len() == other.states@.len(),
                i <= self.states@.len(),
                forall|j: int| 0 <= j < i ==> self@[j] == other@[j],
            decreases self.states@.len() - i,
        {
            if self.states[i] != other.states[i] {
                assert(self@[i as int] != other@[i as int]);
                return false;
            }
            i = i + 1;
        }
        assert(self@ =~= other@);
        true
    }
}

impl Clone for StateContainer {
    fn clone(&self) -> (r: StateContainer)
        ensures
            r@ == self@,
    {
        self.duplicate()
    }
}

impl PartialEq for StateContainer {
    fn eq(&self, other: &StateContainer) -> (r: bool) {
        self.same(other)
    }
}

impl vstd::std_specs::cmp::PartialEqSpecImpl for StateContainer {
    open spec fn obeys_eq_spec() -> bool {
        true
    }

    open spec fn eq_spec(&self, other: &StateContainer) -> bool {
        self@ == other@
    }
}

} // verus!
