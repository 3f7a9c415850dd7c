//! Laws of the rule checker and of substitution, stated and proved over
//! the same specifications that the executable functions' contracts use.

use vstd::prelude::*;
use crate::language::SpecTerm;
use crate::language::SpecFormula;
use crate::sequent::SpecSequent;
use crate::lk::SpecLK;
use crate::lk::spec_conclusion;
use crate::lk::spec_valid_step;
use crate::lk::spec_adjacent_swap;
use crate::ops::spec_free_vars;
use crate::ops::spec_term_vars;
use crate::ops::spec_terms_vars;
use crate::subst::spec_is_substitutible;
use crate::subst::spec_substitute;
use crate::subst::spec_substitute_term;
use crate::subst::spec_substitute_terms;

verus! {

/// An axiom node is valid exactly when its sequent is the identity
/// sequent with equal non-empty sides, or has an empty antecedent and a
/// single trivially true equation as its succedent.
pub proof fn lemma_axiom_valid_iff(c: SpecSequent)
    ensures
        spec_valid_step(SpecLK::Axiom(c)) <==> ((c.antecedent == c.succedent
            && c.antecedent.len() > 0) || (c.antecedent.len() == 0 && c.succedent.len() == 1
            && match c.succedent[0] {
            SpecFormula::Equal(s, t) => s == t,
            _ => false,
        })),
{
}

/// A weakening-left node is valid exactly when the stated list equalities
/// hold; violating either makes the step invalid.
pub proof fn lemma_weakening_left_iff(p: SpecLK, c: SpecSequent)
    ensures
        spec_valid_step(SpecLK::WeakeningLeft(Box::new(p), c)) <==> (spec_conclusion(p).antecedent
            == c.antecedent.drop_first() && spec_conclusion(p).succedent == c.succedent),
{
}

/// A weakening-right node is valid exactly when the stated list
/// equalities hold.
pub proof fn lemma_weakening_right_iff(p: SpecLK, c: SpecSequent)
    ensures
        spec_valid_step(SpecLK::WeakeningRight(Box::new(p), c)) <==> (spec_conclusion(p).antecedent
            == c.antecedent && spec_conclusion(p).succedent == c.succedent.drop_last()),
{
}

/// A contraction-left node is valid exactly when the premise's first two
/// antecedent formulas agree and dropping one yields the conclusion.
pub proof fn lemma_contraction_left_iff(p: SpecLK, c: SpecSequent)
    ensures
        spec_valid_step(SpecLK::ContractionLeft(Box::new(p), c)) <==> (spec_conclusion(
            p,
        ).antecedent[0] == spec_conclusion(p).antecedent[1] && spec_conclusion(
            p,
        ).antecedent.drop_first() == c.antecedent && spec_conclusion(p).succedent == c.succedent),
{
}

/// A contraction-right node is valid exactly when the premise's last two
/// succedent formulas agree and dropping one yields the conclusion.
pub proof fn lemma_contraction_right_iff(p: SpecLK, c: SpecSequent)
    ensures
        spec_valid_step(SpecLK::ContractionRight(Box::new(p), c)) <==> (spec_conclusion(
            p,
        ).succedent[spec_conclusion(p).succedent.len() - 2] == spec_conclusion(
            p,
        ).succedent.last() && spec_conclusion(p).succedent.drop_last() == c.succedent
            && spec_conclusion(p).antecedent == c.antecedent),
{
}

/// Changing any one element of a weakening-left conclusion away from the
/// required copy of the premise flips the check to false.
pub proof fn lemma_weakening_left_mutation(p: SpecLK, c: SpecSequent, i: int)
    requires
        0 <= i < c.antecedent.len() - 1,
        spec_conclusion(p).antecedent.len() == c.antecedent.len() - 1,
        spec_conclusion(p).antecedent[i] != c.antecedent[i + 1],
    ensures
        !spec_valid_step(SpecLK::WeakeningLeft(Box::new(p), c)),
{
    if spec_valid_step(SpecLK::WeakeningLeft(Box::new(p), c)) {
        assert(spec_conclusion(p).antecedent[i] == c.antecedent.drop_first()[i]);
    }
}

/// Changing any one element of a contraction-right conclusion away from
/// the premise's remaining succedent flips the check to false.
pub proof fn lemma_contraction_right_mutation(p: SpecLK, c: SpecSequent, i: int)
    requires
        0 <= i < c.succedent.len(),
        spec_conclusion(p).succedent.len() - 1 == c.succedent.len(),
        spec_conclusion(p).succedent[i] != c.succedent[i],
    ensures
        !spec_valid_step(SpecLK::ContractionRight(Box::new(p), c)),
{
    if spec_valid_step(SpecLK::ContractionRight(Box::new(p), c)) {
        assert(spec_conclusion(p).succedent.drop_last()[i] == c.succedent[i]);
    }
}

/// Sequents that differ by exactly one adjacent transposition of the
/// antecedent make a valid exchange-left step.
pub proof fn lemma_exchange_left_transposition(p: SpecLK, c: SpecSequent, i: int)
    requires
        spec_conclusion(p).succedent == c.succedent,
        spec_adjacent_swap(spec_conclusion(p).antecedent, c.antecedent, i),
    ensures
        spec_valid_step(SpecLK::ExchangeLeft(Box::new(p), c)),
{
}

/// Sequents that differ by exactly one adjacent transposition of the
/// succedent make a valid exchange-right step.
pub proof fn lemma_exchange_right_transposition(p: SpecLK, c: SpecSequent, i: int)
    requires
        spec_conclusion(p).antecedent == c.antecedent,
        spec_adjacent_swap(spec_conclusion(p).succedent, c.succedent, i),
    ensures
        spec_valid_step(SpecLK::ExchangeRight(Box::new(p), c)),
{
}

/// Antecedents that differ in three distinct positions are further than
/// one adjacent transposition apart, so exchange-left rejects them.
pub proof fn lemma_exchange_left_too_far(p: SpecLK, c: SpecSequent, i1: int, i2: int, i3: int)
    requires
        i1 < i2 < i3,
        0 <= i1,
        i3 < c.antecedent.len(),
        i3 < spec_conclusion(p).antecedent.len(),
        spec_conclusion(p).antecedent[i1] != c.antecedent[i1],
        spec_conclusion(p).antecedent[i2] != c.antecedent[i2],
        spec_conclusion(p).antecedent[i3] != c.antecedent[i3],
    ensures
        !spec_valid_step(SpecLK::ExchangeLeft(Box::new(p), c)),
{
    if spec_valid_step(SpecLK::ExchangeLeft(Box::new(p), c)) {
        let i = choose|i: int|
            spec_adjacent_swap(spec_conclusion(p).antecedent, c.antecedent, i);
        assert(i1 == i || i1 == i + 1);
        assert(i2 == i || i2 == i + 1);
        assert(i3 == i || i3 == i + 1);
    }
}

/// Succedents that differ in three distinct positions are further than
/// one adjacent transposition apart, so exchange-right rejects them.
pub proof fn lemma_exchange_right_too_far(p: SpecLK, c: SpecSequent, i1: int, i2: int, i3: int)
    requires
        i1 < i2 < i3,
        0 <= i1,
        i3 < c.succedent.len(),
        i3 < spec_conclusion(p).succedent.len(),
        spec_conclusion(p).succedent[i1] != c.succedent[i1],
        spec_conclusion(p).succedent[i2] != c.succedent[i2],
        spec_conclusion(p).succedent[i3] != c.succedent[i3],
    ensures
        !spec_valid_step(SpecLK::ExchangeRight(Box::new(p), c)),
{
    if spec_valid_step(SpecLK::ExchangeRight(Box::new(p), c)) {
        let i = choose|i: int|
            spec_adjacent_swap(spec_conclusion(p).succedent, c.succedent, i);
        assert(i1 == i || i1 == i + 1);
        assert(i2 == i || i2 == i + 1);
        assert(i3 == i || i3 == i + 1);
    }
}

} // verus!

verus! {

/// Substituting in a term replaces the variable's occurrences: the
/// variables of the result are those of the term, with `v` traded for the
/// variables of `t` when it occurred at all.
proof fn lemma_substitute_term_vars(s: SpecTerm, v: SpecTerm, t: SpecTerm)
    requires
        v is Var,
    ensures
        spec_term_vars(spec_substitute_term(s, v, t)) == (if spec_term_vars(s).contains(v) {
            spec_term_vars(s).remove(v) + spec_term_vars(t)
        } else {
            spec_term_vars(s)
        }),
    decreases s,
{
    if s == v {
        assert(spec_term_vars(s).contains(v));
        assert(spec_term_vars(s).remove(v) + spec_term_vars(t) =~= spec_term_vars(t));
    } else {
        match s {
            SpecTerm::Var(_) => {
                assert(!spec_term_vars(s).contains(v));
            },
            SpecTerm::Func(name, args) => {
                lemma_substitute_terms_vars(args, v, t);
            },
        }
    }
}

/// The list version of [`lemma_substitute_term_vars`].
proof fn lemma_substitute_terms_vars(ts: Seq<SpecTerm>, v: SpecTerm, t: SpecTerm)
    requires
        v is Var,
    ensures
        spec_terms_vars(spec_substitute_terms(ts, v, t)) == (if spec_terms_vars(ts).contains(v) {
            spec_terms_vars(ts).remove(v) + spec_term_vars(t)
        } else {
            spec_terms_vars(ts)
        }),
    decreases ts,
{
    if ts.len() == 0 {
        assert(spec_substitute_terms(ts, v, t).len() == 0);
    } else {
        lemma_substitute_term_vars(ts[0], v, t);
        lemma_substitute_terms_vars(ts.drop_first(), v, t);
        let sub = spec_substitute_terms(ts, v, t);
        assert(sub[0] == spec_substitute_term(ts[0], v, t));
        assert(sub.drop_first() =~= spec_substitute_terms(ts.drop_first(), v, t));
        let hv = spec_term_vars(ts[0]);
        let tv = spec_terms_vars(ts.drop_first());
        let x = spec_term_vars(t);
        if hv.contains(v) && tv.contains(v) {
            assert((hv.remove(v) + x) + (tv.remove(v) + x) =~= (hv + tv).remove(v) + x);
        } else if hv.contains(v) {
            assert((hv.remove(v) + x) + tv =~= (hv + tv).remove(v) + x);
        } else if tv.contains(v) {
            assert(hv + (tv.remove(v) + x) =~= (hv + tv).remove(v) + x);
        } else {
            assert(!(hv + tv).contains(v));
        }
    }
}

/// Capture-avoidance of substitution: when the capture check passes, the
/// free variables of the substituted formula are exactly the original
/// free variables with `v` traded for the variables of `t` when `v` was
/// free at all.
pub proof fn lemma_substitute_free_vars(f: SpecFormula, v: SpecTerm, t: SpecTerm)
    requires
        v is Var,
        spec_is_substitutible(f, v, t),
    ensures
        spec_free_vars(spec_substitute(f, v, t)) == (if spec_free_vars(f).contains(v) {
            spec_free_vars(f).remove(v) + spec_term_vars(t)
        } else {
            spec_free_vars(f)
        }),
    decreases f,
{
    let x = spec_term_vars(t);
    match f {
        SpecFormula::Pred(name, args) => {
            lemma_substitute_terms_vars(args, v, t);
        },
        SpecFormula::Equal(lhs, rhs) => {
            lemma_substitute_term_vars(lhs, v, t);
            lemma_substitute_term_vars(rhs, v, t);
            let hv = spec_term_vars(lhs);
            let tv = spec_term_vars(rhs);
            if hv.contains(v) && tv.contains(v) {
                assert((hv.remove(v) + x) + (tv.remove(v) + x) =~= (hv + tv).remove(v) + x);
            } else if hv.contains(v) {
                assert((hv.remove(v) + x) + tv =~= (hv + tv).remove(v) + x);
            } else if tv.contains(v) {
                assert(hv + (tv.remove(v) + x) =~= (hv + tv).remove(v) + x);
            } else {
                assert(!(hv + tv).contains(v));
            }
        },
        SpecFormula::Not(g) => {
            lemma_substitute_free_vars(*g, v, t);
        },
        SpecFormula::And(lhs, rhs) => {
            lemma_substitute_free_vars(*lhs, v, t);
            lemma_substitute_free_vars(*rhs, v, t);
            let hv = spec_free_vars(*lhs);
            let tv = spec_free_vars(*rhs);
            if hv.contains(v) && tv.contains(v) {
                assert((hv.remove(v) + x) + (tv.remove(v) + x) =~= (hv + tv).remove(v) + x);
            } else if hv.contains(v) {
                assert((hv.remove(v) + x) + tv =~= (hv + tv).remove(v) + x);
            } else if tv.contains(v) {
                assert(hv + (tv.remove(v) + x) =~= (hv + tv).remove(v) + x);
            } else {
                assert(!(hv + tv).contains(v));
            }
        },
        SpecFormula::Or(lhs, rhs) => {
            lemma_substitute_free_vars(*lhs, v, t);
            lemma_substitute_free_vars(*rhs, v, t);
            let hv = spec_free_vars(*lhs);
            let tv = spec_free_vars(*rhs);
            if hv.contains(v) && tv.contains(v) {
                assert((hv.remove(v) + x) + (tv.remove(v) + x) =~= (hv + tv).remove(v) + x);
            } else if hv.contains(v) {
                assert((hv.remove(v) + x) + tv =~= (hv + tv).remove(v) + x);
            } else if tv.contains(v) {
                assert(hv + (tv.remove(v) + x) =~= (hv + tv).remove(v) + x);
            } else {
                assert(!(hv + tv).contains(v));
            }
        },
        SpecFormula::Implies(lhs, rhs) => {
            lemma_substitute_free_vars(*lhs, v, t);
            lemma_substitute_free_vars(*rhs, v, t);
            let hv = spec_free_vars(*lhs);
            let tv = spec_free_vars(*rhs);
            if hv.contains(v) && tv.contains(v) {
                assert((hv.remove(v) + x) + (tv.remove(v) + x) =~= (hv + tv).remove(v) + x);
            } else if hv.contains(v) {
                assert((hv.remove(v) + x) + tv =~= (hv + tv).remove(v) + x);
            } else if tv.contains(v) {
                assert(hv + (tv.remove(v) + x) =~= (hv + tv).remove(v) + x);
            } else {
                assert(!(hv + tv).contains(v));
            }
        },
        SpecFormula::Forall(w, g) => {
            if w == v {
                assert(!spec_free_vars(f).contains(v));
            } else {
                lemma_substitute_free_vars(*g, v, t);
                let gv = spec_free_vars(*g);
                if gv.contains(v) {
                    assert(!x.contains(w));
                    assert((gv.remove(v) + x).remove(w) =~= gv.remove(w).remove(v) + x);
                    assert(spec_free_vars(f).contains(v));
                } else {
                    assert(!spec_free_vars(f).contains(v));
                }
            }
        },
        SpecFormula::Exists(w, g) => {
            if w == v {
                assert(!spec_free_vars(f).contains(v));
            } else {
                lemma_substitute_free_vars(*g, v, t);
                let gv = spec_free_vars(*g);
                if gv.contains(v) {
                    assert(!x.contains(w));
                    assert((gv.remove(v) + x).remove(w) =~= gv.remove(w).remove(v) + x);
                    assert(spec_free_vars(f).contains(v));
                } else {
                    assert(!spec_free_vars(f).contains(v));
                }
            }
        },
    }
}

} // verus!

verus! {

/// Changing any one element of a weakening-right conclusion away from the
/// required copy of the premise flips the check to false.
pub proof fn lemma_weakening_right_mutation(p: SpecLK, c: SpecSequent, i: int)
    requires
        0 <= i < c.succedent.len() - 1,
        spec_conclusion(p).succedent.len() == c.succedent.len() - 1,
        spec_conclusion(p).succedent[i] != c.succedent[i],
    ensures
        !spec_valid_step(SpecLK::WeakeningRight(Box::new(p), c)),
{
    if spec_valid_step(SpecLK::WeakeningRight(Box::new(p), c)) {
        assert(spec_conclusion(p).succedent[i] == c.succedent.drop_last()[i]);
    }
}

/// Changing any one element of a contraction-left conclusion away from
/// the premise's remaining antecedent flips the check to false.
pub proof fn lemma_contraction_left_mutation(p: SpecLK, c: SpecSequent, i: int)
    requires
        0 <= i < c.antecedent.len(),
        spec_conclusion(p).antecedent.len() - 1 == c.antecedent.len(),
        spec_conclusion(p).antecedent[i + 1] != c.antecedent[i],
    ensures
        !spec_valid_step(SpecLK::ContractionLeft(Box::new(p), c)),
{
    if spec_valid_step(SpecLK::ContractionLeft(Box::new(p), c)) {
        assert(spec_conclusion(p).antecedent.drop_first()[i] == c.antecedent[i]);
    }
}

} // verus!
