//! Substitution of a term for the free occurrences of a variable, and the
//! capture check that callers use before substituting.

use vstd::prelude::*;
use crate::language::Term;
use crate::language::Formula;
use crate::language::SpecTerm;
use crate::language::SpecFormula;
use crate::language::view_term;
use crate::language::view_terms;
use crate::language::lemma_view_terms;
use crate::ops::spec_free_vars;
use crate::ops::spec_term_vars;
use crate::ops::contains_term;
use crate::ops::term_vars_vec;

verus! {

/// Replaces every occurrence of `v` in `s` by `t`. Terms have no binders,
/// so every occurrence is replaced.
pub open spec fn spec_substitute_term(s: SpecTerm, v: SpecTerm, t: SpecTerm) -> SpecTerm
    decreases s,
{
    if s == v {
        t
    } else {
        match s {
            SpecTerm::Var(_) => s,
            SpecTerm::Func(name, args) => SpecTerm::Func(name, spec_substitute_terms(args, v, t)),
        }
    }
}

/// [`spec_substitute_term`] mapped over a sequence of terms.
pub open spec fn spec_substitute_terms(ts: Seq<SpecTerm>, v: SpecTerm, t: SpecTerm) -> Seq<
    SpecTerm,
>
    decreases ts,
{
    if ts.len() == 0 {
        Seq::empty()
    } else {
        seq![spec_substitute_term(ts[0], v, t)] + spec_substitute_terms(ts.drop_first(), v, t)
    }
}

/// Replaces every free occurrence of `v` in `f` by `t`, leaving occurrences
/// under a rebinding of `v` untouched.
pub open spec fn spec_substitute(f: SpecFormula, v: SpecTerm, t: SpecTerm) -> SpecFormula
    decreases f,
{
    match f {
        SpecFormula::Pred(name, args) => SpecFormula::Pred(name, spec_substitute_terms(args, v, t)),
        SpecFormula::Equal(lhs, rhs) => SpecFormula::Equal(
            spec_substitute_term(lhs, v, t),
            spec_substitute_term(rhs, v, t),
        ),
        SpecFormula::Not(g) => SpecFormula::Not(Box::new(spec_substitute(*g, v, t))),
        SpecFormula::And(lhs, rhs) => SpecFormula::And(
            Box::new(spec_substitute(*lhs, v, t)),
            Box::new(spec_substitute(*rhs, v, t)),
        ),
        SpecFormula::Or(lhs, rhs) => SpecFormula::Or(
            Box::new(spec_substitute(*lhs, v, t)),
            Box::new(spec_substitute(*rhs, v, t)),
        ),
        SpecFormula::Implies(lhs, rhs) => SpecFormula::Implies(
            Box::new(spec_substitute(*lhs, v, t)),
            Box::new(spec_substitute(*rhs, v, t)),
        ),
        SpecFormula::Forall(w, g) => if w == v {
            f
        } else {
            SpecFormula::Forall(w, Box::new(spec_substitute(*g, v, t)))
        },
        SpecFormula::Exists(w, g) => if w == v {
            f
        } else {
            SpecFormula::Exists(w, Box::new(spec_substitute(*g, v, t)))
        },
    }
}

/// True iff substituting `t` for the free occurrences of `v` in `f` cannot
/// capture a variable of `t`: for every binder of `f` that substitution
/// descends into and whose body has `v` free, the bound variable does not
/// occur in `t`.
pub open spec fn spec_is_substitutible(f: SpecFormula, v: SpecTerm, t: SpecTerm) -> bool
    decreases f,
{
    match f {
        SpecFormula::Pred(_, _) => true,
        SpecFormula::Equal(_, _) => true,
        SpecFormula::Not(g) => spec_is_substitutible(*g, v, t),
        SpecFormula::And(lhs, rhs) => spec_is_substitutible(*lhs, v, t) && spec_is_substitutible(
            *rhs,
            v,
            t,
        ),
        SpecFormula::Or(lhs, rhs) => spec_is_substitutible(*lhs, v, t) && spec_is_substitutible(
            *rhs,
            v,
            t,
        ),
        SpecFormula::Implies(lhs, rhs) => spec_is_substitutible(*lhs, v, t)
            && spec_is_substitutible(*rhs, v, t),
        SpecFormula::Forall(w, g) => if w == v {
            true
        } else {
            (spec_free_vars(*g).contains(v) ==> !spec_term_vars(t).contains(w))
                && spec_is_substitutible(*g, v, t)
        },
        SpecFormula::Exists(w, g) => if w == v {
            true
        } else {
            (spec_free_vars(*g).contains(v) ==> !spec_term_vars(t).contains(w))
                && spec_is_substitutible(*g, v, t)
        },
    }
}

/// [`spec_substitute_terms`] acts elementwise.
pub proof fn lemma_spec_substitute_terms(ts: Seq<SpecTerm>, v: SpecTerm, t: SpecTerm)
    ensures
        spec_substitute_terms(ts, v, t).len() == ts.len(),
        forall|i: int|
            0 <= i < ts.len() ==> spec_substitute_terms(ts, v, t)[i] == spec_substitute_term(
                ts[i],
                v,
                t,
            ),
    decreases ts,
{
    if ts.len() > 0 {
        lemma_spec_substitute_terms(ts.drop_first(), v, t);
    }
}

/// Substitution on one term.
fn substitute_term(s: &Term, v: &Term, t: &Term) -> (r: Term)
    ensures
        r@ == spec_substitute_term(s@, v@, t@),
    decreases s,
{
    if s.term_eq(v) {
        t.clone()
    } else {
        match s {
            Term::Var(_) => s.clone(),
            Term::Func(name, args) => {
                proof {
                    assert(decreases_to!(*s => (*s)->Func_1));
                }
                Term::Func(name.clone(), substitute_terms(args, v, t))
            },
        }
    }
}

/// Substitution on each term of a vector.
fn substitute_terms(xs: &Vec<Term>, v: &Term, t: &Term) -> (r: Vec<Term>)
    ensures
        view_terms(r@) == spec_substitute_terms(view_terms(xs@), v@, t@),
    decreases *xs,
{
    let ghost vxs = view_terms(xs@);
    proof {
        lemma_view_terms(xs@);
        lemma_spec_substitute_terms(vxs, v@, t@);
    }
    let mut out: Vec<Term> = Vec::new();
    for i in 0..xs.len()
        invariant
            out@.len() == i,
            forall|j: int|
                0 <= j < i ==> view_term(out@[j]) == spec_substitute_term(vxs[j], v@, t@),
            vxs == view_terms(xs@),
            vxs.len() == xs@.len(),
            forall|j: int| 0 <= j < xs@.len() ==> vxs[j] == view_term(xs@[j]),
    {
        proof {
            assert(decreases_to!(*xs => xs@));
            assert(decreases_to!(xs@ => xs@[i as int]));
        }
        out.push(substitute_term(&xs[i], v, t));
    }
    proof {
        lemma_view_terms(out@);
        lemma_spec_substitute_terms(vxs, v@, t@);
        assert(view_terms(out@) =~= spec_substitute_terms(vxs, v@, t@));
    }
    out
}

impl Formula {
    /// Replaces every free occurrence of `v` in this formula by `t`,
    /// leaving occurrences under a rebinding of `v` untouched. Callers
    /// check [`Formula::is_substitutible`] first; soundness of the
    /// replacement is their concern, not this function's.
    pub fn substitute(&self, v: &Term, t: &Term) -> (r: Formula)
        ensures
            r@ == spec_substitute(self@, v@, t@),
        decreases self,
    {
        match self {
            Formula::Pred(name, args) => Formula::Pred(name.clone(), substitute_terms(args, v, t)),
            Formula::Equal(lhs, rhs) => Formula::Equal(
                substitute_term(lhs, v, t),
                substitute_term(rhs, v, t),
            ),
            Formula::Not(g) => Formula::Not(Box::new(g.substitute(v, t))),
            Formula::And(lhs, rhs) => Formula::And(
                Box::new(lhs.substitute(v, t)),
                Box::new(rhs.substitute(v, t)),
            ),
            Formula::Or(lhs, rhs) => Formula::Or(
                Box::new(lhs.substitute(v, t)),
                Box::new(rhs.substitute(v, t)),
            ),
            Formula::Implies(lhs, rhs) => Formula::Implies(
                Box::new(lhs.substitute(v, t)),
                Box::new(rhs.substitute(v, t)),
            ),
            Formula::Forall(w, g) => if w.term_eq(v) {
                self.clone()
            } else {
                Formula::Forall(w.clone(), Box::new(g.substitute(v, t)))
            },
            Formula::Exists(w, g) => if w.term_eq(v) {
                self.clone()
            } else {
                Formula::Exists(w.clone(), Box::new(g.substitute(v, t)))
            },
        }
    }

    /// True iff substituting `t` for the free occurrences of `v` cannot
    /// capture a variable: no binder that the substitution descends into,
    /// with `v` free in its body, binds a variable of `t`.
    pub fn is_substitutible(&self, v: &Term, t: &Term) -> (r: bool)
        ensures
            r == spec_is_substitutible(self@, v@, t@),
        decreases self,
    {
        match self {
            Formula::Pred(_, _) => true,
            Formula::Equal(_, _) => true,
            Formula::Not(g) => g.is_substitutible(v, t),
            Formula::And(lhs, rhs) => {
                let a = lhs.is_substitutible(v, t);
                let b = rhs.is_substitutible(v, t);
                a && b
            },
            Formula::Or(lhs, rhs) => {
                let a = lhs.is_substitutible(v, t);
                let b = rhs.is_substitutible(v, t);
                a && b
            },
            Formula::Implies(lhs, rhs) => {
                let a = lhs.is_substitutible(v, t);
                let b = rhs.is_substitutible(v, t);
                a && b
            },
            Formula::Forall(w, g) => if w.term_eq(v) {
                true
            } else {
                let guard = if contains_term(&g.get_free_vars(), v) {
                    !contains_term(&term_vars_vec(t), w)
                } else {
                    true
                };
                let rec = g.is_substitutible(v, t);
                guard && rec
            },
            Formula::Exists(w, g) => if w.term_eq(v) {
                true
            } else {
                let guard = if contains_term(&g.get_free_vars(), v) {
                    !contains_term(&term_vars_vec(t), w)
                } else {
                    true
                };
                let rec = g.is_substitutible(v, t);
                guard && rec
            },
        }
    }
}

} // verus!
