//! Sequents: ordered pairs of formula lists, read "antecedent entails
//! succedent". Order matters: the rule checker manipulates literal
//! positions, with introduced formulas at the front of the antecedent and
//! the back of the succedent.

use vstd::prelude::*;
use crate::language::Formula;
use crate::language::SpecFormula;
use crate::language::view_formula;
use crate::language::view_formulas;
use crate::language::lemma_view_formulas;
use crate::ops::spec_subformulas;
use crate::ops::lemma_concat_to_set;
use crate::ops::append_formulas;

verus! {

/// An ordered pair of formula lists.
#[derive(Debug, Eq, Hash)]
pub struct Sequent {
    pub antecedent: Vec<Formula>,
    pub succedent: Vec<Formula>,
}

/// The mathematical model of a [`Sequent`].
#[verifier::ext_equal]
pub struct SpecSequent {
    pub antecedent: Seq<SpecFormula>,
    pub succedent: Seq<SpecFormula>,
}

impl View for Sequent {
    type V = SpecSequent;

    open spec fn view(&self) -> SpecSequent {
        SpecSequent {
            antecedent: view_formulas(self.antecedent@),
            succedent: view_formulas(self.succedent@),
        }
    }
}

/// Structural equality of two formula vectors, positionally.
pub fn formulas_eq(xs: &Vec<Formula>, ys: &Vec<Formula>) -> (r: bool)
    ensures
        r == (view_formulas(xs@) == view_formulas(ys@)),
{
    proof {
        lemma_view_formulas(xs@);
        lemma_view_formulas(ys@);
    }
    if xs.len() != ys.len() {
        return false;
    }
    for i in 0..xs.len()
        invariant
            xs.len() == ys.len(),
            forall|j: int| 0 <= j < i ==> view_formulas(xs@)[j] == view_formulas(ys@)[j],
            view_formulas(xs@).len() == xs@.len(),
            view_formulas(ys@).len() == ys@.len(),
            forall|j: int|
                0 <= j < xs@.len() ==> view_formulas(xs@)[j] == view_formula(xs@[j]),
            forall|j: int|
                0 <= j < ys@.len() ==> view_formulas(ys@)[j] == view_formula(ys@[j]),
    {
        if !xs[i].fml_eq(&ys[i]) {
            proof {
                assert(view_formulas(xs@)[i as int] != view_formulas(ys@)[i as int]);
            }
            return false;
        }
    }
    proof {
        assert(view_formulas(xs@) =~= view_formulas(ys@));
    }
    true
}

/// Deep copy of a formula vector, preserving the model of every element.
pub fn clone_formulas(xs: &Vec<Formula>) -> (r: Vec<Formula>)
    ensures
        view_formulas(r@) == view_formulas(xs@),
{
    proof {
        lemma_view_formulas(xs@);
    }
    let mut out: Vec<Formula> = Vec::new();
    for i in 0..xs.len()
        invariant
            out@.len() == i,
            forall|j: int| 0 <= j < i ==> view_formula(out@[j]) == view_formula(xs@[j]),
            view_formulas(xs@).len() == xs@.len(),
            forall|j: int|
                0 <= j < xs@.len() ==> view_formulas(xs@)[j] == view_formula(xs@[j]),
    {
        out.push(xs[i].clone());
    }
    proof {
        lemma_view_formulas(out@);
        assert(view_formulas(out@) =~= view_formulas(xs@));
    }
    out
}

/// Union of [`spec_subformulas`] over a sequence of formulas.
pub open spec fn spec_subformulas_formulas(fs: Seq<SpecFormula>) -> Set<SpecFormula>
    decreases fs,
{
    if fs.len() == 0 {
        Set::empty()
    } else {
        spec_subformulas(fs[0]) + spec_subformulas_formulas(fs.drop_first())
    }
}

/// The subformulas of every formula in both lists of a sequent.
pub open spec fn spec_subformulas_sequent(s: SpecSequent) -> Set<SpecFormula> {
    spec_subformulas_formulas(s.antecedent) + spec_subformulas_formulas(s.succedent)
}

/// Splitting off the head of the remaining suffix, for
/// [`spec_subformulas_formulas`].
pub proof fn lemma_subformulas_formulas_skip(fs: Seq<SpecFormula>, i: int)
    requires
        0 <= i < fs.len(),
    ensures
        spec_subformulas_formulas(fs.skip(i)) == spec_subformulas(fs[i])
            + spec_subformulas_formulas(fs.skip(i + 1)),
{
    assert(fs.skip(i).drop_first() =~= fs.skip(i + 1));
    assert(fs.skip(i)[0] == fs[i]);
}

/// Collects the subformulas of every formula of a vector.
fn formulas_subformulas_vec(xs: &Vec<Formula>) -> (r: Vec<Formula>)
    ensures
        view_formulas(r@).to_set() == spec_subformulas_formulas(view_formulas(xs@)),
{
    let ghost vxs = view_formulas(xs@);
    proof {
        lemma_view_formulas(xs@);
    }
    let mut out: Vec<Formula> = Vec::new();
    proof {
        assert(vxs.skip(0) =~= vxs);
        lemma_view_formulas(out@);
        assert(view_formulas(out@).to_set() =~= Set::<SpecFormula>::empty());
    }
    for i in 0..xs.len()
        invariant
            view_formulas(out@).to_set() + spec_subformulas_formulas(vxs.skip(i as int))
                == spec_subformulas_formulas(vxs),
            vxs == view_formulas(xs@),
            vxs.len() == xs@.len(),
            forall|j: int| 0 <= j < xs@.len() ==> vxs[j] == view_formula(xs@[j]),
    {
        let sub = xs[i].get_subformulas();
        let ghost out0 = view_formulas(out@);
        append_formulas(&mut out, &sub);
        proof {
            lemma_concat_to_set(out0, view_formulas(sub@));
            lemma_subformulas_formulas_skip(vxs, i as int);
            assert(view_formulas(out@).to_set() + spec_subformulas_formulas(vxs.skip(i + 1))
                =~= spec_subformulas_formulas(vxs));
        }
    }
    proof {
        assert(vxs.skip(xs@.len() as int) =~= Seq::<SpecFormula>::empty());
        assert(view_formulas(out@).to_set() =~= spec_subformulas_formulas(vxs));
    }
    out
}

impl Sequent {
    /// The first formula of the antecedent; the sequent's introduced
    /// position on the left. The antecedent must be non-empty.
    pub fn ant_first(&self) -> (r: &Formula)
        requires
            self@.antecedent.len() > 0,
        ensures
            r@ == self@.antecedent[0],
    {
        proof {
            lemma_view_formulas(self.antecedent@);
        }
        &self.antecedent[0]
    }

    /// The last formula of the succedent; the sequent's introduced
    /// position on the right. The succedent must be non-empty.
    pub fn suc_last(&self) -> (r: &Formula)
        requires
            self@.succedent.len() > 0,
        ensures
            r@ == self@.succedent.last(),
    {
        proof {
            lemma_view_formulas(self.succedent@);
        }
        &self.succedent[self.succedent.len() - 1]
    }

    /// The antecedent without its first formula. The antecedent must be
    /// non-empty.
    pub fn ant_but_first(&self) -> (r: Vec<Formula>)
        requires
            self@.antecedent.len() > 0,
        ensures
            view_formulas(r@) == self@.antecedent.drop_first(),
    {
        proof {
            lemma_view_formulas(self.antecedent@);
        }
        let mut out: Vec<Formula> = Vec::new();
        for i in 1..self.antecedent.len()
            invariant
                out@.len() == i - 1,
                forall|j: int|
                    0 <= j < i - 1 ==> view_formula(out@[j]) == view_formula(
                        self.antecedent@[j + 1],
                    ),
                self.antecedent@.len() > 0,
                view_formulas(self.antecedent@).len() == self.antecedent@.len(),
                forall|j: int|
                    0 <= j < self.antecedent@.len() ==> view_formulas(self.antecedent@)[j]
                        == view_formula(self.antecedent@[j]),
        {
            out.push(self.antecedent[i].clone());
        }
        proof {
            lemma_view_formulas(out@);
            assert(view_formulas(out@) =~= self@.antecedent.drop_first());
        }
        out
    }

    /// The succedent without its last formula. The succedent must be
    /// non-empty.
    pub fn suc_but_last(&self) -> (r: Vec<Formula>)
        requires
            self@.succedent.len() > 0,
        ensures
            view_formulas(r@) == self@.succedent.drop_last(),
    {
        proof {
            lemma_view_formulas(self.succedent@);
        }
        let mut out: Vec<Formula> = Vec::new();
        for i in 0..self.succedent.len() - 1
            invariant
                out@.len() == i,
                forall|j: int|
                    0 <= j < i ==> view_formula(out@[j]) == view_formula(self.succedent@[j]),
                self.succedent@.len() > 0,
                view_formulas(self.succedent@).len() == self.succedent@.len(),
                forall|j: int|
                    0 <= j < self.succedent@.len() ==> view_formulas(self.succedent@)[j]
                        == view_formula(self.succedent@[j]),
        {
            out.push(self.succedent[i].clone());
        }
        proof {
            lemma_view_formulas(out@);
            assert(view_formulas(out@) =~= self@.succedent.drop_last());
        }
        out
    }

    /// The subformulas of every formula in both lists.
    pub fn get_subformulas(&self) -> (r: Vec<Formula>)
        ensures
            view_formulas(r@).to_set() == spec_subformulas_sequent(self@),
    {
        let mut out = formulas_subformulas_vec(&self.antecedent);
        let sub = formulas_subformulas_vec(&self.succedent);
        let ghost out0 = view_formulas(out@);
        append_formulas(&mut out, &sub);
        proof {
            lemma_concat_to_set(out0, view_formulas(sub@));
        }
        out
    }
}

impl PartialEq for Sequent {
    fn eq(&self, other: &Sequent) -> (r: bool) {
        let ants = formulas_eq(&self.antecedent, &other.antecedent);
        let sucs = formulas_eq(&self.succedent, &other.succedent);
        let r = ants && sucs;
        proof {
            if r {
                assert(self@ =~= other@);
            }
        }
        r
    }
}

impl vstd::std_specs::cmp::PartialEqSpecImpl for Sequent {
    open spec fn obeys_eq_spec() -> bool {
        true
    }

    open spec fn eq_spec(&self, other: &Sequent) -> bool {
        self@ == other@
    }
}

impl Clone for Sequent {
    /// Deep copy with the same model.
    fn clone(&self) -> (r: Sequent)
        ensures
            r@ == self@,
    {
        let r = Sequent {
            antecedent: clone_formulas(&self.antecedent),
            succedent: clone_formulas(&self.succedent),
        };
        proof {
            assert(r@ =~= self@);
        }
        r
    }
}

} // verus!
