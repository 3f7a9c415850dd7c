//! The executable rule checker: for each LK variant, whether the root
//! inference is a legal application of its rule.

use vstd::prelude::*;
use crate::language::Formula;
use crate::language::Term;
use crate::language::SpecTerm;
use crate::language::view_formula;
use crate::language::view_formulas;
use crate::language::view_term;
use crate::language::view_terms;
use crate::language::lemma_view_formulas;
use crate::language::lemma_view_terms;
use crate::sequent::Sequent;
use crate::sequent::formulas_eq;
use crate::sequent::clone_formulas;
use crate::ops::append_formulas;
use crate::ops::contains_term;
use crate::ops::spec_free_vars;
use crate::ops::spec_subterms_formula;
use crate::subst::spec_is_substitutible;
use crate::subst::spec_substitute;
use crate::lk::LK;
use crate::lk::spec_step_wf;
use crate::lk::spec_valid_step;
use crate::lk::spec_adjacent_swap;
use crate::lk::spec_free_in_formulas;
use crate::lk::spec_valid_axiom;
use crate::lk::spec_valid_weakening_left;
use crate::lk::spec_valid_weakening_right;
use crate::lk::spec_valid_contraction_left;
use crate::lk::spec_valid_contraction_right;
use crate::lk::spec_valid_exchange_left;
use crate::lk::spec_valid_exchange_right;
use crate::lk::spec_valid_and_left1;
use crate::lk::spec_valid_and_left2;
use crate::lk::spec_valid_and_right;
use crate::lk::spec_valid_or_left;
use crate::lk::spec_valid_or_right1;
use crate::lk::spec_valid_or_right2;
use crate::lk::spec_valid_implies_left;
use crate::lk::spec_valid_implies_right;
use crate::lk::spec_valid_not_left;
use crate::lk::spec_valid_not_right;
use crate::lk::spec_valid_forall_left;
use crate::lk::spec_valid_forall_right;
use crate::lk::spec_valid_exists_left;
use crate::lk::spec_valid_exists_right;
use crate::lk::spec_valid_cut;

verus! {

/// One step of an LK derivation, checkable for local validity.
pub trait Proof {
    /// The non-emptiness conditions the step's positional accesses need.
    spec fn wf_step(&self) -> bool;

    /// What it means for the root inference to be valid.
    spec fn valid_step(&self) -> bool;

    /// Checks only the one inference at the root against its immediate
    /// premises' stored conclusions; premise subtrees are not recursed
    /// into.
    fn is_valid_inference(&self) -> (r: bool)
        requires
            self.wf_step(),
        ensures
            r == self.valid_step(),
    ;
}

/// Concatenation of two formula vectors, by value.
fn concat_formulas(a: &Vec<Formula>, b: &Vec<Formula>) -> (r: Vec<Formula>)
    ensures
        view_formulas(r@) == view_formulas(a@) + view_formulas(b@),
{
    let mut out = clone_formulas(a);
    append_formulas(&mut out, b);
    out
}

/// Equality of `a` and `b` on the index range `from..to`.
fn formulas_eq_range(a: &Vec<Formula>, b: &Vec<Formula>, from: usize, to: usize) -> (r: bool)
    requires
        from <= to,
        to <= a@.len(),
        to <= b@.len(),
    ensures
        r == (view_formulas(a@).subrange(from as int, to as int) == view_formulas(
            b@,
        ).subrange(from as int, to as int)),
{
    proof {
        lemma_view_formulas(a@);
        lemma_view_formulas(b@);
    }
    let ghost va = view_formulas(a@);
    let ghost vb = view_formulas(b@);
    for i in from..to
        invariant
            from <= i <= to,
            to <= a@.len(),
            to <= b@.len(),
            va == view_formulas(a@),
            vb == view_formulas(b@),
            va.len() == a@.len(),
            vb.len() == b@.len(),
            forall|j: int| from <= j < i ==> va[j] == vb[j],
            forall|j: int| 0 <= j < a@.len() ==> va[j] == view_formula(a@[j]),
            forall|j: int| 0 <= j < b@.len() ==> vb[j] == view_formula(b@[j]),
    {
        if !a[i].fml_eq(&b[i]) {
            proof {
                assert(va.subrange(from as int, to as int)[i - from] == va[i as int]);
                assert(vb.subrange(from as int, to as int)[i - from] == vb[i as int]);
            }
            return false;
        }
    }
    proof {
        assert(va.subrange(from as int, to as int) =~= vb.subrange(from as int, to as int));
    }
    true
}

/// Whether `b` is `a` with the adjacent pair at `i`, `i + 1` swapped.
fn check_swap_at(a: &Vec<Formula>, b: &Vec<Formula>, i: usize) -> (r: bool)
    requires
        i + 1 < a@.len(),
        a@.len() == b@.len(),
    ensures
        r == spec_adjacent_swap(view_formulas(a@), view_formulas(b@), i as int),
{
    proof {
        lemma_view_formulas(a@);
        lemma_view_formulas(b@);
    }
    let ghost va = view_formulas(a@);
    let ghost vb = view_formulas(b@);
    let n = a.len();
    let s1 = a[i].fml_eq(&b[i + 1]);
    let s2 = a[i + 1].fml_eq(&b[i]);
    if !(s1 && s2) {
        return false;
    }
    let pre = formulas_eq_range(a, b, 0, i);
    if !pre {
        proof {
            let sa = va.subrange(0, i as int);
            let sb = vb.subrange(0, i as int);
            assert(sa.len() == sb.len());
            assert(exists|j: int| 0 <= j < sa.len() && sa[j] != sb[j]) by {
                assert(!(sa =~= sb));
            }
            let j = choose|j: int| 0 <= j < sa.len() && sa[j] != sb[j];
            assert(va[j] != vb[j]);
        }
        return false;
    }
    let post = formulas_eq_range(a, b, i + 2, n);
    if !post {
        proof {
            let sa = va.subrange(i + 2, va.len() as int);
            let sb = vb.subrange(i + 2, vb.len() as int);
            assert(sa.len() == sb.len());
            assert(exists|j: int| 0 <= j < sa.len() && sa[j] != sb[j]) by {
                assert(!(sa =~= sb));
            }
            let j = choose|j: int| 0 <= j < sa.len() && sa[j] != sb[j];
            assert(va[j + i + 2] != vb[j + i + 2]);
        }
        return false;
    }
    proof {
        assert forall|j: int| 0 <= j < va.len() && j != i && j != i + 1 implies va[j] == vb[j] by {
            if j < i {
                assert(va.subrange(0, i as int)[j] == vb.subrange(0, i as int)[j]);
            } else {
                assert(va.subrange(i + 2, va.len() as int)[j - i - 2] == vb.subrange(
                    i + 2,
                    vb.len() as int,
                )[j - i - 2]);
            }
        };
    }
    true
}

/// Whether `b` is `a` with some adjacent pair swapped.
fn check_exchange(a: &Vec<Formula>, b: &Vec<Formula>) -> (r: bool)
    requires
        view_formulas(a@).len() >= 1,
    ensures
        r == exists|i: int| spec_adjacent_swap(view_formulas(a@), view_formulas(b@), i),
{
    proof {
        lemma_view_formulas(a@);
        lemma_view_formulas(b@);
    }
    let ghost va = view_formulas(a@);
    let ghost vb = view_formulas(b@);
    if a.len() != b.len() {
        proof {
            assert forall|i: int| !spec_adjacent_swap(va, vb, i) by {};
        }
        return false;
    }
    let n = a.len();
    for i in 0..n - 1
        invariant
            n == a@.len(),
            a@.len() == b@.len(),
            a@.len() >= 1,
            va == view_formulas(a@),
            vb == view_formulas(b@),
            va.len() == a@.len(),
            vb.len() == b@.len(),
            forall|j: int| 0 <= j < i ==> !spec_adjacent_swap(va, vb, j),
    {
        if check_swap_at(a, b, i) {
            return true;
        }
    }
    proof {
        assert forall|i: int| !spec_adjacent_swap(va, vb, i) by {
            if 0 <= i && i + 1 < va.len() {
                assert(!spec_adjacent_swap(va, vb, i));
            }
        };
    }
    false
}

/// Whether `y` occurs free in some formula of `fs`.
fn free_in_formulas(fs: &Vec<Formula>, y: &Term) -> (r: bool)
    ensures
        r == spec_free_in_formulas(view_formulas(fs@), y@),
{
    proof {
        lemma_view_formulas(fs@);
    }
    let ghost vfs = view_formulas(fs@);
    for i in 0..fs.len()
        invariant
            vfs == view_formulas(fs@),
            vfs.len() == fs@.len(),
            forall|j: int| 0 <= j < i ==> !spec_free_vars(vfs[j]).contains(y@),
            forall|j: int| 0 <= j < fs@.len() ==> vfs[j] == view_formula(fs@[j]),
    {
        let fv = fs[i].get_free_vars();
        if contains_term(&fv, y) {
            proof {
                assert(spec_free_vars(vfs[i as int]).contains(y@));
            }
            return true;
        }
    }
    false
}

/// The axiom check.
fn check_axiom(c: &Sequent) -> (r: bool)
    ensures
        r == spec_valid_axiom(c@),
{
    proof {
        lemma_view_formulas(c.antecedent@);
        lemma_view_formulas(c.succedent@);
    }
    let identity = if c.antecedent.len() > 0 {
        formulas_eq(&c.antecedent, &c.succedent)
    } else {
        false
    };
    if identity {
        return true;
    }
    if c.antecedent.len() == 0 && c.succedent.len() == 1 {
        match &c.succedent[0] {
            Formula::Equal(s, t) => s.term_eq(t),
            _ => false,
        }
    } else {
        false
    }
}

/// The weakening-left check.
fn check_weakening_left(p: &Sequent, c: &Sequent) -> (r: bool)
    requires
        c@.antecedent.len() >= 1,
    ensures
        r == spec_valid_weakening_left(p@, c@),
{
    let ants = formulas_eq(&p.antecedent, &c.ant_but_first());
    let sucs = formulas_eq(&p.succedent, &c.succedent);
    ants && sucs
}

/// The weakening-right check.
fn check_weakening_right(p: &Sequent, c: &Sequent) -> (r: bool)
    requires
        c@.succedent.len() >= 1,
    ensures
        r == spec_valid_weakening_right(p@, c@),
{
    let ants = formulas_eq(&p.antecedent, &c.antecedent);
    let sucs = formulas_eq(&p.succedent, &c.suc_but_last());
    ants && sucs
}

/// The contraction-left check.
fn check_contraction_left(p: &Sequent, c: &Sequent) -> (r: bool)
    requires
        p@.antecedent.len() >= 2,
    ensures
        r == spec_valid_contraction_left(p@, c@),
{
    proof {
        lemma_view_formulas(p.antecedent@);
    }
    let dup = p.antecedent[0].fml_eq(&p.antecedent[1]);
    let ants = formulas_eq(&p.ant_but_first(), &c.antecedent);
    let sucs = formulas_eq(&p.succedent, &c.succedent);
    dup && ants && sucs
}

/// The contraction-right check.
fn check_contraction_right(p: &Sequent, c: &Sequent) -> (r: bool)
    requires
        p@.succedent.len() >= 2,
    ensures
        r == spec_valid_contraction_right(p@, c@),
{
    proof {
        lemma_view_formulas(p.succedent@);
    }
    let n = p.succedent.len();
    let dup = p.succedent[n - 2].fml_eq(&p.succedent[n - 1]);
    let sucs = formulas_eq(&p.suc_but_last(), &c.succedent);
    let ants = formulas_eq(&p.antecedent, &c.antecedent);
    dup && sucs && ants
}

/// The exchange-left check.
fn check_exchange_left(p: &Sequent, c: &Sequent) -> (r: bool)
    requires
        p@.antecedent.len() >= 1,
    ensures
        r == spec_valid_exchange_left(p@, c@),
{
    proof {
        lemma_view_formulas(p.antecedent@);
    }
    let sucs = formulas_eq(&p.succedent, &c.succedent);
    if !sucs {
        return false;
    }
    let r = check_exchange(&p.antecedent, &c.antecedent);
    proof {
        let ghost va = view_formulas(p.antecedent@);
        let ghost vb = view_formulas(c.antecedent@);
        if r {
            let i = choose|i: int| spec_adjacent_swap(va, vb, i);
            assert(spec_adjacent_swap(p@.antecedent, c@.antecedent, i));
        } else {
            assert forall|i: int| !spec_adjacent_swap(p@.antecedent, c@.antecedent, i) by {
                assert(!spec_adjacent_swap(va, vb, i));
            };
        }
    }
    r
}

/// The exchange-right check.
fn check_exchange_right(p: &Sequent, c: &Sequent) -> (r: bool)
    requires
        p@.succedent.len() >= 1,
    ensures
        r == spec_valid_exchange_right(p@, c@),
{
    proof {
        lemma_view_formulas(p.succedent@);
    }
    let ants = formulas_eq(&p.antecedent, &c.antecedent);
    if !ants {
        return false;
    }
    let r = check_exchange(&p.succedent, &c.succedent);
    proof {
        let ghost va = view_formulas(p.succedent@);
        let ghost vb = view_formulas(c.succedent@);
        if r {
            let i = choose|i: int| spec_adjacent_swap(va, vb, i);
            assert(spec_adjacent_swap(p@.succedent, c@.succedent, i));
        } else {
            assert forall|i: int| !spec_adjacent_swap(p@.succedent, c@.succedent, i) by {
                assert(!spec_adjacent_swap(va, vb, i));
            };
        }
    }
    r
}

/// The and-left checks; `first` selects which conjunct the premise holds.
fn check_and_left(p: &Sequent, c: &Sequent, first: bool) -> (r: bool)
    requires
        p@.antecedent.len() >= 1,
        c@.antecedent.len() >= 1,
    ensures
        first ==> r == spec_valid_and_left1(p@, c@),
        !first ==> r == spec_valid_and_left2(p@, c@),
{
    let rest = formulas_eq(&p.ant_but_first(), &c.ant_but_first());
    let sucs = formulas_eq(&p.succedent, &c.succedent);
    if !(rest && sucs) {
        return false;
    }
    match c.ant_first() {
        Formula::And(phi, psi) => {
            if first {
                p.ant_first().fml_eq(phi)
            } else {
                p.ant_first().fml_eq(psi)
            }
        },
        _ => false,
    }
}

/// The and-right check.
fn check_and_right(l: &Sequent, r: &Sequent, c: &Sequent) -> (res: bool)
    requires
        l@.succedent.len() >= 1,
        r@.succedent.len() >= 1,
        c@.succedent.len() >= 1,
    ensures
        res == spec_valid_and_right(l@, r@, c@),
{
    let a1 = formulas_eq(&l.antecedent, &c.antecedent);
    let a2 = formulas_eq(&r.antecedent, &c.antecedent);
    let s1 = formulas_eq(&l.suc_but_last(), &c.suc_but_last());
    let s2 = formulas_eq(&r.suc_but_last(), &c.suc_but_last());
    if !(a1 && a2 && s1 && s2) {
        return false;
    }
    match c.suc_last() {
        Formula::And(phi, psi) => {
            let m1 = l.suc_last().fml_eq(phi);
            let m2 = r.suc_last().fml_eq(psi);
            m1 && m2
        },
        _ => false,
    }
}

/// The or-left check.
fn check_or_left(l: &Sequent, r: &Sequent, c: &Sequent) -> (res: bool)
    requires
        l@.antecedent.len() >= 1,
        r@.antecedent.len() >= 1,
        c@.antecedent.len() >= 1,
    ensures
        res == spec_valid_or_left(l@, r@, c@),
{
    let s1 = formulas_eq(&l.succedent, &c.succedent);
    let s2 = formulas_eq(&r.succedent, &c.succedent);
    let a1 = formulas_eq(&l.ant_but_first(), &c.ant_but_first());
    let a2 = formulas_eq(&r.ant_but_first(), &c.ant_but_first());
    if !(s1 && s2 && a1 && a2) {
        return false;
    }
    match c.ant_first() {
        Formula::Or(phi, psi) => {
            let m1 = l.ant_first().fml_eq(phi);
            let m2 = r.ant_first().fml_eq(psi);
            m1 && m2
        },
        _ => false,
    }
}

/// The or-right checks; `first` selects which disjunct the premise holds.
fn check_or_right(p: &Sequent, c: &Sequent, first: bool) -> (r: bool)
    requires
        p@.succedent.len() >= 1,
        c@.succedent.len() >= 1,
    ensures
        first ==> r == spec_valid_or_right1(p@, c@),
        !first ==> r == spec_valid_or_right2(p@, c@),
{
    let ants = formulas_eq(&p.antecedent, &c.antecedent);
    let rest = formulas_eq(&p.suc_but_last(), &c.suc_but_last());
    if !(ants && rest) {
        return false;
    }
    match c.suc_last() {
        Formula::Or(phi, psi) => {
            if first {
                p.suc_last().fml_eq(phi)
            } else {
                p.suc_last().fml_eq(psi)
            }
        },
        _ => false,
    }
}

/// The implies-left check.
fn check_implies_left(l: &Sequent, r: &Sequent, c: &Sequent) -> (res: bool)
    requires
        l@.succedent.len() >= 1,
        r@.antecedent.len() >= 1,
        c@.antecedent.len() >= 1,
    ensures
        res == spec_valid_implies_left(l@, r@, c@),
{
    let gamma_pi = concat_formulas(&l.antecedent, &r.ant_but_first());
    let ants = formulas_eq(&c.ant_but_first(), &gamma_pi);
    let delta_sigma = concat_formulas(&l.suc_but_last(), &r.succedent);
    let sucs = formulas_eq(&c.succedent, &delta_sigma);
    if !(ants && sucs) {
        return false;
    }
    match c.ant_first() {
        Formula::Implies(phi, psi) => {
            let m1 = l.suc_last().fml_eq(phi);
            let m2 = r.ant_first().fml_eq(psi);
            m1 && m2
        },
        _ => false,
    }
}

/// The implies-right check.
fn check_implies_right(p: &Sequent, c: &Sequent) -> (r: bool)
    requires
        p@.antecedent.len() >= 1,
        p@.succedent.len() >= 1,
        c@.succedent.len() >= 1,
    ensures
        r == spec_valid_implies_right(p@, c@),
{
    let ants = formulas_eq(&p.ant_but_first(), &c.antecedent);
    let rest = formulas_eq(&p.suc_but_last(), &c.suc_but_last());
    if !(ants && rest) {
        return false;
    }
    match c.suc_last() {
        Formula::Implies(phi, psi) => {
            let m1 = p.ant_first().fml_eq(phi);
            let m2 = p.suc_last().fml_eq(psi);
            m1 && m2
        },
        _ => false,
    }
}

/// The not-left check.
fn check_not_left(p: &Sequent, c: &Sequent) -> (r: bool)
    requires
        p@.succedent.len() >= 1,
        c@.antecedent.len() >= 1,
    ensures
        r == spec_valid_not_left(p@, c@),
{
    let ants = formulas_eq(&p.antecedent, &c.ant_but_first());
    let sucs = formulas_eq(&p.suc_but_last(), &c.succedent);
    if !(ants && sucs) {
        return false;
    }
    match c.ant_first() {
        Formula::Not(phi) => p.suc_last().fml_eq(phi),
        _ => false,
    }
}

/// The not-right check.
fn check_not_right(p: &Sequent, c: &Sequent) -> (r: bool)
    requires
        p@.antecedent.len() >= 1,
        c@.succedent.len() >= 1,
    ensures
        r == spec_valid_not_right(p@, c@),
{
    let ants = formulas_eq(&p.ant_but_first(), &c.antecedent);
    let sucs = formulas_eq(&p.succedent, &c.suc_but_last());
    if !(ants && sucs) {
        return false;
    }
    match c.suc_last() {
        Formula::Not(phi) => p.ant_first().fml_eq(phi),
        _ => false,
    }
}

/// The cut check.
fn check_cut(l: &Sequent, r: &Sequent, c: &Sequent) -> (res: bool)
    requires
        l@.succedent.len() >= 1,
        r@.antecedent.len() >= 1,
    ensures
        res == spec_valid_cut(l@, r@, c@),
{
    if !l.suc_last().fml_eq(r.ant_first()) {
        return false;
    }
    let gamma_pi = concat_formulas(&l.antecedent, &r.ant_but_first());
    let ants = formulas_eq(&c.antecedent, &gamma_pi);
    let delta_sigma = concat_formulas(&l.suc_but_last(), &r.succedent);
    let sucs = formulas_eq(&c.succedent, &delta_sigma);
    ants && sucs
}

} // verus!

verus! {

/// The forall-left check: universal instantiation, searching the premise's
/// first antecedent formula's subterms for the instantiating term.
#[verifier::loop_isolation(false)]
fn check_forall_left(p: &Sequent, c: &Sequent) -> (r: bool)
    requires
        p@.antecedent.len() >= 1,
        c@.antecedent.len() >= 1,
    ensures
        r == spec_valid_forall_left(p@, c@),
{
    let sucs = formulas_eq(&p.succedent, &c.succedent);
    let rest = formulas_eq(&p.ant_but_first(), &c.ant_but_first());
    if !(sucs && rest) {
        return false;
    }
    match c.ant_first() {
        Formula::Forall(v, phi) => {
            let ghost vphi = view_formula(**phi);
            let ghost vv = view_term(*v);
            let bv = phi.get_bound_vars();
            if contains_term(&bv, v) {
                return false;
            }
            let pfirst = p.ant_first();
            let ghost target = p@.antecedent[0];
            let cands = pfirst.get_subterms();
            proof {
                lemma_view_terms(cands@);
            }
            for i in 0..cands.len()
                invariant
                    forall|j: int|
                        0 <= j < i ==> !(spec_is_substitutible(vphi, vv, view_term(cands@[j]))
                            && spec_substitute(vphi, vv, view_term(cands@[j])) == target),
            {
                if phi.is_substitutible(v, &cands[i]) {
                    let tf = phi.substitute(v, &cands[i]);
                    if tf.fml_eq(pfirst) {
                        proof {
                            assert(view_terms(cands@)[i as int] == view_term(cands@[i as int]));
                            assert(view_terms(cands@).contains(view_term(cands@[i as int])));
                            assert(spec_subterms_formula(target).contains(
                                view_term(cands@[i as int]),
                            ));
                        }
                        return true;
                    }
                }
            }
            proof {
                assert forall|t: SpecTerm|
                    !(#[trigger] spec_subterms_formula(target).contains(t)
                        && spec_is_substitutible(vphi, vv, t) && spec_substitute(vphi, vv, t)
                        == target) by {
                    if spec_subterms_formula(target).contains(t) {
                        assert(view_terms(cands@).contains(t));
                        let j = choose|j: int|
                            0 <= j < view_terms(cands@).len() && view_terms(cands@)[j] == t;
                        assert(view_terms(cands@)[j] == view_term(cands@[j]));
                    }
                };
            }
            false
        },
        _ => false,
    }
}

/// The exists-right check: existential instantiation, searching the
/// premise's last succedent formula's subterms for the witness term.
#[verifier::loop_isolation(false)]
fn check_exists_right(p: &Sequent, c: &Sequent) -> (r: bool)
    requires
        p@.succedent.len() >= 1,
        c@.succedent.len() >= 1,
    ensures
        r == spec_valid_exists_right(p@, c@),
{
    let ants = formulas_eq(&p.antecedent, &c.antecedent);
    let rest = formulas_eq(&p.suc_but_last(), &c.suc_but_last());
    if !(ants && rest) {
        return false;
    }
    match c.suc_last() {
        Formula::Exists(v, phi) => {
            let ghost vphi = view_formula(**phi);
            let ghost vv = view_term(*v);
            let bv = phi.get_bound_vars();
            if contains_term(&bv, v) {
                return false;
            }
            let plast = p.suc_last();
            let ghost target = p@.succedent.last();
            let cands = plast.get_subterms();
            proof {
                lemma_view_terms(cands@);
            }
            for i in 0..cands.len()
                invariant
                    forall|j: int|
                        0 <= j < i ==> !(spec_is_substitutible(vphi, vv, view_term(cands@[j]))
                            && spec_substitute(vphi, vv, view_term(cands@[j])) == target),
            {
                if phi.is_substitutible(v, &cands[i]) {
                    let tf = phi.substitute(v, &cands[i]);
                    if tf.fml_eq(plast) {
                        proof {
                            assert(view_terms(cands@)[i as int] == view_term(cands@[i as int]));
                            assert(view_terms(cands@).contains(view_term(cands@[i as int])));
                            assert(spec_subterms_formula(target).contains(
                                view_term(cands@[i as int]),
                            ));
                        }
                        return true;
                    }
                }
            }
            proof {
                assert forall|t: SpecTerm|
                    !(#[trigger] spec_subterms_formula(target).contains(t)
                        && spec_is_substitutible(vphi, vv, t) && spec_substitute(vphi, vv, t)
                        == target) by {
                    if spec_subterms_formula(target).contains(t) {
                        assert(view_terms(cands@).contains(t));
                        let j = choose|j: int|
                            0 <= j < view_terms(cands@).len() && view_terms(cands@)[j] == t;
                        assert(view_terms(cands@)[j] == view_term(cands@[j]));
                    }
                };
            }
            false
        },
        _ => false,
    }
}

/// The forall-right check: universal generalization, searching the free
/// variables of the premise's last succedent formula for an eigenvariable.
#[verifier::loop_isolation(false)]
fn check_forall_right(p: &Sequent, c: &Sequent) -> (r: bool)
    requires
        p@.succedent.len() >= 1,
        c@.succedent.len() >= 1,
    ensures
        r == spec_valid_forall_right(p@, c@),
{
    let ants = formulas_eq(&p.antecedent, &c.antecedent);
    let rest = formulas_eq(&p.suc_but_last(), &c.suc_but_last());
    if !(ants && rest) {
        return false;
    }
    match c.suc_last() {
        Formula::Forall(v, phi) => {
            let ghost vphi = view_formula(**phi);
            let ghost vv = view_term(*v);
            let plast = p.suc_last();
            let ghost target = p@.succedent.last();
            let pb = p.suc_but_last();
            let cands = plast.get_free_vars();
            proof {
                lemma_view_terms(cands@);
            }
            for i in 0..cands.len()
                invariant
                    forall|j: int|
                        0 <= j < i ==> !(spec_is_substitutible(vphi, vv, view_term(cands@[j]))
                            && spec_substitute(vphi, vv, view_term(cands@[j])) == target
                            && !spec_free_in_formulas(p@.antecedent, view_term(cands@[j]))
                            && !spec_free_in_formulas(
                            p@.succedent.drop_last(),
                            view_term(cands@[j]),
                        )),
            {
                if phi.is_substitutible(v, &cands[i]) {
                    let tf = phi.substitute(v, &cands[i]);
                    if tf.fml_eq(plast) {
                        let f1 = free_in_formulas(&p.antecedent, &cands[i]);
                        let f2 = free_in_formulas(&pb, &cands[i]);
                        if !f1 && !f2 {
                            proof {
                                assert(view_terms(cands@)[i as int] == view_term(
                                    cands@[i as int],
                                ));
                                assert(view_terms(cands@).contains(view_term(cands@[i as int])));
                                assert(spec_free_vars(target).contains(
                                    view_term(cands@[i as int]),
                                ));
                            }
                            return true;
                        }
                    }
                }
            }
            proof {
                assert forall|y: SpecTerm|
                    !(#[trigger] spec_free_vars(target).contains(y) && spec_is_substitutible(
                        vphi,
                        vv,
                        y,
                    ) && spec_substitute(vphi, vv, y) == target && !spec_free_in_formulas(
                        p@.antecedent,
                        y,
                    ) && !spec_free_in_formulas(p@.succedent.drop_last(), y)) by {
                    if spec_free_vars(target).contains(y) {
                        assert(view_terms(cands@).contains(y));
                        let j = choose|j: int|
                            0 <= j < view_terms(cands@).len() && view_terms(cands@)[j] == y;
                        assert(view_terms(cands@)[j] == view_term(cands@[j]));
                    }
                };
            }
            false
        },
        _ => false,
    }
}

/// The exists-left check: existential generalization, searching the free
/// variables of the premise's first antecedent formula for an
/// eigenvariable, checked against the premise's succedent and remaining
/// antecedent.
#[verifier::loop_isolation(false)]
fn check_exists_left(p: &Sequent, c: &Sequent) -> (r: bool)
    requires
        p@.antecedent.len() >= 1,
        c@.antecedent.len() >= 1,
    ensures
        r == spec_valid_exists_left(p@, c@),
{
    let sucs = formulas_eq(&p.succedent, &c.succedent);
    let rest = formulas_eq(&p.ant_but_first(), &c.ant_but_first());
    if !(sucs && rest) {
        return false;
    }
    match c.ant_first() {
        Formula::Exists(v, phi) => {
            let ghost vphi = view_formula(**phi);
            let ghost vv = view_term(*v);
            let pfirst = p.ant_first();
            let ghost target = p@.antecedent[0];
            let pb = p.ant_but_first();
            let cands = pfirst.get_free_vars();
            proof {
                lemma_view_terms(cands@);
            }
            for i in 0..cands.len()
                invariant
                    forall|j: int|
                        0 <= j < i ==> !(spec_is_substitutible(vphi, vv, view_term(cands@[j]))
                            && spec_substitute(vphi, vv, view_term(cands@[j])) == target
                            && !spec_free_in_formulas(p@.succedent, view_term(cands@[j]))
                            && !spec_free_in_formulas(
                            p@.antecedent.drop_first(),
                            view_term(cands@[j]),
                        )),
            {
                if phi.is_substitutible(v, &cands[i]) {
                    let tf = phi.substitute(v, &cands[i]);
                    if tf.fml_eq(pfirst) {
                        let f1 = free_in_formulas(&p.succedent, &cands[i]);
                        let f2 = free_in_formulas(&pb, &cands[i]);
                        if !f1 && !f2 {
                            proof {
                                assert(view_terms(cands@)[i as int] == view_term(
                                    cands@[i as int],
                                ));
                                assert(view_terms(cands@).contains(view_term(cands@[i as int])));
                                assert(spec_free_vars(target).contains(
                                    view_term(cands@[i as int]),
                                ));
                            }
                            return true;
                        }
                    }
                }
            }
            proof {
                assert forall|y: SpecTerm|
                    !(#[trigger] spec_free_vars(target).contains(y) && spec_is_substitutible(
                        vphi,
                        vv,
                        y,
                    ) && spec_substitute(vphi, vv, y) == target && !spec_free_in_formulas(
                        p@.succedent,
                        y,
                    ) && !spec_free_in_formulas(p@.antecedent.drop_first(), y)) by {
                    if spec_free_vars(target).contains(y) {
                        assert(view_terms(cands@).contains(y));
                        let j = choose|j: int|
                            0 <= j < view_terms(cands@).len() && view_terms(cands@)[j] == y;
                        assert(view_terms(cands@)[j] == view_term(cands@[j]));
                    }
                };
            }
            false
        },
        _ => false,
    }
}

impl Proof for LK {
    open spec fn wf_step(&self) -> bool {
        spec_step_wf(self@)
    }

    open spec fn valid_step(&self) -> bool {
        spec_valid_step(self@)
    }

    fn is_valid_inference(&self) -> (r: bool) {
        match self {
            LK::Axiom(c) => check_axiom(c),
            LK::WeakeningLeft(p, c) => check_weakening_left(p.last(), c),
            LK::WeakeningRight(p, c) => check_weakening_right(p.last(), c),
            LK::ContractionLeft(p, c) => check_contraction_left(p.last(), c),
            LK::ContractionRight(p, c) => check_contraction_right(p.last(), c),
            LK::ExchangeLeft(p, c) => check_exchange_left(p.last(), c),
            LK::ExchangeRight(p, c) => check_exchange_right(p.last(), c),
            LK::AndLeft1(p, c) => check_and_left(p.last(), c, true),
            LK::AndLeft2(p, c) => check_and_left(p.last(), c, false),
            LK::AndRight(l, r, c) => check_and_right(l.last(), r.last(), c),
            LK::OrLeft(l, r, c) => check_or_left(l.last(), r.last(), c),
            LK::OrRight1(p, c) => check_or_right(p.last(), c, true),
            LK::OrRight2(p, c) => check_or_right(p.last(), c, false),
            LK::ImpliesLeft(l, r, c) => check_implies_left(l.last(), r.last(), c),
            LK::ImpliesRight(p, c) => check_implies_right(p.last(), c),
            LK::NotLeft(p, c) => check_not_left(p.last(), c),
            LK::NotRight(p, c) => check_not_right(p.last(), c),
            LK::ForallLeft(p, c) => check_forall_left(p.last(), c),
            LK::ForallRight(p, c) => check_forall_right(p.last(), c),
            LK::ExistsLeft(p, c) => check_exists_left(p.last(), c),
            LK::ExistsRight(p, c) => check_exists_right(p.last(), c),
            LK::Cut(l, r, c) => check_cut(l.last(), r.last(), c),
        }
    }
}

} // verus!
