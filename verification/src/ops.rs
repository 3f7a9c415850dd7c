//! Collection operations on terms and formulas: variables, subterms,
//! subformulas, and the non-logical symbols they use.

use vstd::prelude::*;
use crate::language::Term;
use crate::language::Formula;
use crate::language::NonLogicalSymbol;
use crate::language::SpecTerm;
use crate::language::SpecFormula;
use crate::language::SpecSymbol;
use crate::language::view_term;
use crate::language::view_terms;
use crate::language::view_formula;
use crate::language::lemma_view_terms;

verus! {

/// The set of elements of a concatenation is the union of the sets.
pub proof fn lemma_concat_to_set<A>(a: Seq<A>, b: Seq<A>)
    ensures
        (a + b).to_set() == a.to_set() + b.to_set(),
{
    assert forall|x: A| #[trigger] (a + b).contains(x) implies a.contains(x) || b.contains(x) by {
        let i = choose|i: int| 0 <= i < (a + b).len() && (a + b)[i] == x;
        if i < a.len() {
            assert(a[i] == x);
        } else {
            assert(b[i - a.len()] == x);
        }
    };
    assert forall|x: A| a.contains(x) implies (a + b).contains(x) by {
        let i = choose|i: int| 0 <= i < a.len() && a[i] == x;
        assert((a + b)[i] == x);
    };
    assert forall|x: A| b.contains(x) implies (a + b).contains(x) by {
        let i = choose|i: int| 0 <= i < b.len() && b[i] == x;
        assert((a + b)[i + a.len()] == x);
    };
    assert((a + b).to_set() =~= a.to_set() + b.to_set());
}

/// The set of elements of a pushed sequence gains exactly the new element.
pub proof fn lemma_push_to_set<A>(s: Seq<A>, x: A)
    ensures
        s.push(x).to_set() == s.to_set().insert(x),
{
    assert forall|y: A| #[trigger] s.push(x).contains(y) implies s.contains(y) || y == x by {
        let i = choose|i: int| 0 <= i < s.push(x).len() && s.push(x)[i] == y;
        if i < s.len() {
            assert(s[i] == y);
        }
    };
    assert forall|y: A| s.contains(y) implies s.push(x).contains(y) by {
        let i = choose|i: int| 0 <= i < s.len() && s[i] == y;
        assert(s.push(x)[i] == y);
    };
    assert(s.push(x)[s.len() as int] == x);
    assert(s.push(x).contains(x));
    assert(s.push(x).to_set() =~= s.to_set().insert(x));
}

/// Variables occurring in a term. Terms have no binders, so every
/// occurrence is free.
pub open spec fn spec_term_vars(t: SpecTerm) -> Set<SpecTerm>
    decreases t,
{
    match t {
        SpecTerm::Var(_) => Set::empty().insert(t),
        SpecTerm::Func(_, args) => spec_terms_vars(args),
    }
}

/// Union of [`spec_term_vars`] over a sequence of terms.
pub open spec fn spec_terms_vars(ts: Seq<SpecTerm>) -> Set<SpecTerm>
    decreases ts,
{
    if ts.len() == 0 {
        Set::empty()
    } else {
        spec_term_vars(ts[0]) + spec_terms_vars(ts.drop_first())
    }
}

/// Every term reachable by descending into function arguments, the term
/// itself included.
pub open spec fn spec_subterms_term(t: SpecTerm) -> Set<SpecTerm>
    decreases t,
{
    match t {
        SpecTerm::Var(_) => Set::empty().insert(t),
        SpecTerm::Func(_, args) => spec_subterms_terms(args).insert(t),
    }
}

/// Union of [`spec_subterms_term`] over a sequence of terms.
pub open spec fn spec_subterms_terms(ts: Seq<SpecTerm>) -> Set<SpecTerm>
    decreases ts,
{
    if ts.len() == 0 {
        Set::empty()
    } else {
        spec_subterms_term(ts[0]) + spec_subterms_terms(ts.drop_first())
    }
}

/// Function symbols (name and arity) occurring in a term.
pub open spec fn spec_term_funcs(t: SpecTerm) -> Set<SpecSymbol>
    decreases t,
{
    match t {
        SpecTerm::Var(_) => Set::empty(),
        SpecTerm::Func(name, args) => spec_terms_funcs(args).insert(
            SpecSymbol { name: name, arity: args.len() },
        ),
    }
}

/// Union of [`spec_term_funcs`] over a sequence of terms.
pub open spec fn spec_terms_funcs(ts: Seq<SpecTerm>) -> Set<SpecSymbol>
    decreases ts,
{
    if ts.len() == 0 {
        Set::empty()
    } else {
        spec_term_funcs(ts[0]) + spec_terms_funcs(ts.drop_first())
    }
}

/// Variables with a free occurrence in the formula: for a binder the bound
/// variable is removed from the body's free variables, for connectives the
/// union over the parts, for atoms the variables of the argument terms.
pub open spec fn spec_free_vars(f: SpecFormula) -> Set<SpecTerm>
    decreases f,
{
    match f {
        SpecFormula::Pred(_, args) => spec_terms_vars(args),
        SpecFormula::Equal(lhs, rhs) => spec_term_vars(lhs) + spec_term_vars(rhs),
        SpecFormula::Not(g) => spec_free_vars(*g),
        SpecFormula::And(lhs, rhs) => spec_free_vars(*lhs) + spec_free_vars(*rhs),
        SpecFormula::Or(lhs, rhs) => spec_free_vars(*lhs) + spec_free_vars(*rhs),
        SpecFormula::Implies(lhs, rhs) => spec_free_vars(*lhs) + spec_free_vars(*rhs),
        SpecFormula::Forall(v, g) => spec_free_vars(*g).remove(v),
        SpecFormula::Exists(v, g) => spec_free_vars(*g).remove(v),
    }
}

/// Variables named by some binder within the formula: the union over every
/// binder node of its bound variable.
pub open spec fn spec_bound_vars(f: SpecFormula) -> Set<SpecTerm>
    decreases f,
{
    match f {
        SpecFormula::Pred(_, _) => Set::empty(),
        SpecFormula::Equal(_, _) => Set::empty(),
        SpecFormula::Not(g) => spec_bound_vars(*g),
        SpecFormula::And(lhs, rhs) => spec_bound_vars(*lhs) + spec_bound_vars(*rhs),
        SpecFormula::Or(lhs, rhs) => spec_bound_vars(*lhs) + spec_bound_vars(*rhs),
        SpecFormula::Implies(lhs, rhs) => spec_bound_vars(*lhs) + spec_bound_vars(*rhs),
        SpecFormula::Forall(v, g) => spec_bound_vars(*g).insert(v),
        SpecFormula::Exists(v, g) => spec_bound_vars(*g).insert(v),
    }
}

/// Every term reachable by descending into the formula's argument terms.
pub open spec fn spec_subterms_formula(f: SpecFormula) -> Set<SpecTerm>
    decreases f,
{
    match f {
        SpecFormula::Pred(_, args) => spec_subterms_terms(args),
        SpecFormula::Equal(lhs, rhs) => spec_subterms_term(lhs) + spec_subterms_term(rhs),
        SpecFormula::Not(g) => spec_subterms_formula(*g),
        SpecFormula::And(lhs, rhs) => spec_subterms_formula(*lhs) + spec_subterms_formula(*rhs),
        SpecFormula::Or(lhs, rhs) => spec_subterms_formula(*lhs) + spec_subterms_formula(*rhs),
        SpecFormula::Implies(lhs, rhs) => spec_subterms_formula(*lhs) + spec_subterms_formula(
            *rhs,
        ),
        SpecFormula::Forall(v, g) => spec_subterms_term(v) + spec_subterms_formula(*g),
        SpecFormula::Exists(v, g) => spec_subterms_term(v) + spec_subterms_formula(*g),
    }
}

/// Every formula reachable by descending into connective and quantifier
/// children, the formula itself included.
pub open spec fn spec_subformulas(f: SpecFormula) -> Set<SpecFormula>
    decreases f,
{
    match f {
        SpecFormula::Pred(_, _) => Set::empty().insert(f),
        SpecFormula::Equal(_, _) => Set::empty().insert(f),
        SpecFormula::Not(g) => spec_subformulas(*g).insert(f),
        SpecFormula::And(lhs, rhs) => (spec_subformulas(*lhs) + spec_subformulas(*rhs)).insert(f),
        SpecFormula::Or(lhs, rhs) => (spec_subformulas(*lhs) + spec_subformulas(*rhs)).insert(f),
        SpecFormula::Implies(lhs, rhs) => (spec_subformulas(*lhs) + spec_subformulas(
            *rhs,
        )).insert(f),
        SpecFormula::Forall(_, g) => spec_subformulas(*g).insert(f),
        SpecFormula::Exists(_, g) => spec_subformulas(*g).insert(f),
    }
}

/// Function symbols occurring anywhere in the formula.
pub open spec fn spec_funcs(f: SpecFormula) -> Set<SpecSymbol>
    decreases f,
{
    match f {
        SpecFormula::Pred(_, args) => spec_terms_funcs(args),
        SpecFormula::Equal(lhs, rhs) => spec_term_funcs(lhs) + spec_term_funcs(rhs),
        SpecFormula::Not(g) => spec_funcs(*g),
        SpecFormula::And(lhs, rhs) => spec_funcs(*lhs) + spec_funcs(*rhs),
        SpecFormula::Or(lhs, rhs) => spec_funcs(*lhs) + spec_funcs(*rhs),
        SpecFormula::Implies(lhs, rhs) => spec_funcs(*lhs) + spec_funcs(*rhs),
        SpecFormula::Forall(v, g) => spec_term_funcs(v) + spec_funcs(*g),
        SpecFormula::Exists(v, g) => spec_term_funcs(v) + spec_funcs(*g),
    }
}

/// Predicate symbols occurring anywhere in the formula.
pub open spec fn spec_preds(f: SpecFormula) -> Set<SpecSymbol>
    decreases f,
{
    match f {
        SpecFormula::Pred(name, args) => Set::empty().insert(
            SpecSymbol { name: name, arity: args.len() },
        ),
        SpecFormula::Equal(_, _) => Set::empty(),
        SpecFormula::Not(g) => spec_preds(*g),
        SpecFormula::And(lhs, rhs) => spec_preds(*lhs) + spec_preds(*rhs),
        SpecFormula::Or(lhs, rhs) => spec_preds(*lhs) + spec_preds(*rhs),
        SpecFormula::Implies(lhs, rhs) => spec_preds(*lhs) + spec_preds(*rhs),
        SpecFormula::Forall(_, g) => spec_preds(*g),
        SpecFormula::Exists(_, g) => spec_preds(*g),
    }
}

/// Splitting off the head of the remaining suffix, for [`spec_terms_vars`].
pub proof fn lemma_terms_vars_skip(ts: Seq<SpecTerm>, i: int)
    requires
        0 <= i < ts.len(),
    ensures
        spec_terms_vars(ts.skip(i)) == spec_term_vars(ts[i]) + spec_terms_vars(ts.skip(i + 1)),
{
    assert(ts.skip(i).drop_first() =~= ts.skip(i + 1));
    assert(ts.skip(i)[0] == ts[i]);
}

/// Splitting off the head of the remaining suffix, for [`spec_subterms_terms`].
pub proof fn lemma_subterms_terms_skip(ts: Seq<SpecTerm>, i: int)
    requires
        0 <= i < ts.len(),
    ensures
        spec_subterms_terms(ts.skip(i)) == spec_subterms_term(ts[i]) + spec_subterms_terms(
            ts.skip(i + 1),
        ),
{
    assert(ts.skip(i).drop_first() =~= ts.skip(i + 1));
    assert(ts.skip(i)[0] == ts[i]);
}

/// Splitting off the head of the remaining suffix, for [`spec_terms_funcs`].
pub proof fn lemma_terms_funcs_skip(ts: Seq<SpecTerm>, i: int)
    requires
        0 <= i < ts.len(),
    ensures
        spec_terms_funcs(ts.skip(i)) == spec_term_funcs(ts[i]) + spec_terms_funcs(ts.skip(i + 1)),
{
    assert(ts.skip(i).drop_first() =~= ts.skip(i + 1));
    assert(ts.skip(i)[0] == ts[i]);
}

/// Appends clones of `src`'s elements to `dst`.
pub fn append_terms(dst: &mut Vec<Term>, src: &Vec<Term>)
    ensures
        view_terms(final(dst)@) == view_terms(old(dst)@) + view_terms(src@),
{
    let ghost dst0 = old(dst)@;
    proof {
        lemma_view_terms(src@);
    }
    for i in 0..src.len()
        invariant
            dst@.len() == dst0.len() + i,
            forall|j: int| 0 <= j < dst0.len() ==> view_term(dst@[j]) == view_term(dst0[j]),
            forall|j: int|
                0 <= j < i ==> view_term(dst@[dst0.len() + j]) == view_term(src@[j]),
            view_terms(src@).len() == src@.len(),
            forall|j: int| 0 <= j < src@.len() ==> view_terms(src@)[j] == view_term(src@[j]),
    {
        dst.push(src[i].clone());
    }
    proof {
        lemma_view_terms(dst@);
        lemma_view_terms(dst0);
        assert(view_terms(dst@) =~= view_terms(dst0) + view_terms(src@));
    }
}

/// Appends clones of `src`'s elements to `dst`.
pub fn append_formulas(dst: &mut Vec<Formula>, src: &Vec<Formula>)
    ensures
        crate::language::view_formulas(final(dst)@) == crate::language::view_formulas(old(dst)@)
            + crate::language::view_formulas(src@),
{
    let ghost dst0 = old(dst)@;
    proof {
        crate::language::lemma_view_formulas(src@);
    }
    for i in 0..src.len()
        invariant
            dst@.len() == dst0.len() + i,
            forall|j: int|
                0 <= j < dst0.len() ==> view_formula(dst@[j]) == view_formula(dst0[j]),
            forall|j: int|
                0 <= j < i ==> view_formula(dst@[dst0.len() + j]) == view_formula(src@[j]),
            forall|j: int|
                0 <= j < src@.len() ==> crate::language::view_formulas(src@)[j] == view_formula(
                    src@[j],
                ),
            crate::language::view_formulas(src@).len() == src@.len(),
    {
        dst.push(src[i].clone());
    }
    proof {
        crate::language::lemma_view_formulas(dst@);
        crate::language::lemma_view_formulas(dst0);
        assert(crate::language::view_formulas(dst@) =~= crate::language::view_formulas(dst0)
            + crate::language::view_formulas(src@));
    }
}

/// Whether some element of `xs` is structurally equal to `t`.
pub fn contains_term(xs: &Vec<Term>, t: &Term) -> (r: bool)
    ensures
        r == view_terms(xs@).contains(t@),
{
    proof {
        lemma_view_terms(xs@);
    }
    for i in 0..xs.len()
        invariant
            forall|j: int| 0 <= j < i ==> view_terms(xs@)[j] != t@,
            view_terms(xs@).len() == xs@.len(),
            forall|j: int| 0 <= j < xs@.len() ==> view_terms(xs@)[j] == view_term(xs@[j]),
    {
        if xs[i].term_eq(t) {
            proof {
                assert(view_terms(xs@)[i as int] == t@);
            }
            return true;
        }
    }
    false
}

/// Collects the variables occurring in a term.
pub(crate) fn term_vars_vec(t: &Term) -> (r: Vec<Term>)
    ensures
        view_terms(r@).to_set() == spec_term_vars(t@),
    decreases t,
{
    match t {
        Term::Var(_) => {
            let mut out: Vec<Term> = Vec::new();
            out.push(t.clone());
            proof {
                lemma_view_terms(out@);
                assert(view_terms(out@)[0] == t@);
                assert(view_terms(out@).contains(t@));
                assert(view_terms(out@).to_set() =~= Set::empty().insert(t@));
            }
            out
        },
        Term::Func(name, args) => {
            proof {
                assert(decreases_to!(*t => (*t)->Func_1));
            }
            let r = terms_vars_vec(args);
            proof {
                assert(spec_term_vars(t@) == spec_terms_vars(view_terms(args@)));
            }
            r
        },
    }
}

/// Collects the variables occurring in a vector of terms.
pub(crate) fn terms_vars_vec(xs: &Vec<Term>) -> (r: Vec<Term>)
    ensures
        view_terms(r@).to_set() == spec_terms_vars(view_terms(xs@)),
    decreases *xs,
{
    let ghost vxs = view_terms(xs@);
    proof {
        lemma_view_terms(xs@);
    }
    let mut out: Vec<Term> = Vec::new();
    proof {
        assert(vxs.skip(0) =~= vxs);
        assert(view_terms(out@).to_set() =~= Set::<SpecTerm>::empty());
    }
    for i in 0..xs.len()
        invariant
            view_terms(out@).to_set() + spec_terms_vars(vxs.skip(i as int)) == spec_terms_vars(
                vxs,
            ),
            vxs == view_terms(xs@),
            vxs.len() == xs@.len(),
            forall|j: int| 0 <= j < xs@.len() ==> vxs[j] == view_term(xs@[j]),
    {
        proof {
            assert(decreases_to!(*xs => xs@));
            assert(decreases_to!(xs@ => xs@[i as int]));
        }
        let sub = term_vars_vec(&xs[i]);
        proof {
            lemma_view_terms(out@);
            lemma_view_terms(sub@);
        }
        let ghost out0 = view_terms(out@);
        append_terms(&mut out, &sub);
        proof {
            lemma_concat_to_set(out0, view_terms(sub@));
            lemma_terms_vars_skip(vxs, i as int);
            assert(view_terms(out@).to_set() + spec_terms_vars(vxs.skip(i + 1)) =~= spec_terms_vars(
                vxs,
            ));
        }
    }
    proof {
        assert(vxs.skip(xs@.len() as int) =~= Seq::<SpecTerm>::empty());
        assert(view_terms(out@).to_set() =~= spec_terms_vars(vxs));
    }
    out
}

/// Collects the subterms of a term, the term itself included.
pub(crate) fn term_subterms_vec(t: &Term) -> (r: Vec<Term>)
    ensures
        view_terms(r@).to_set() == spec_subterms_term(t@),
    decreases t,
{
    match t {
        Term::Var(_) => {
            let mut out: Vec<Term> = Vec::new();
            out.push(t.clone());
            proof {
                lemma_view_terms(out@);
                assert(view_terms(out@)[0] == t@);
                assert(view_terms(out@).contains(t@));
                assert(view_terms(out@).to_set() =~= Set::empty().insert(t@));
            }
            out
        },
        Term::Func(name, args) => {
            proof {
                assert(decreases_to!(*t => (*t)->Func_1));
            }
            let mut out = terms_subterms_vec(args);
            let ghost out0 = view_terms(out@);
            proof {
                lemma_view_terms(out@);
            }
            out.push(t.clone());
            proof {
                lemma_view_terms(out@);
                assert(view_terms(out@) =~= out0.push(t@));
                lemma_push_to_set(out0, t@);
                assert(view_terms(out@).to_set() =~= spec_subterms_term(t@));
            }
            out
        },
    }
}

/// Collects the subterms of a vector of terms.
pub(crate) fn terms_subterms_vec(xs: &Vec<Term>) -> (r: Vec<Term>)
    ensures
        view_terms(r@).to_set() == spec_subterms_terms(view_terms(xs@)),
    decreases *xs,
{
    let ghost vxs = view_terms(xs@);
    proof {
        lemma_view_terms(xs@);
    }
    let mut out: Vec<Term> = Vec::new();
    proof {
        assert(vxs.skip(0) =~= vxs);
        assert(view_terms(out@).to_set() =~= Set::<SpecTerm>::empty());
    }
    for i in 0..xs.len()
        invariant
            view_terms(out@).to_set() + spec_subterms_terms(vxs.skip(i as int))
                == spec_subterms_terms(vxs),
            vxs == view_terms(xs@),
            vxs.len() == xs@.len(),
            forall|j: int| 0 <= j < xs@.len() ==> vxs[j] == view_term(xs@[j]),
    {
        proof {
            assert(decreases_to!(*xs => xs@));
            assert(decreases_to!(xs@ => xs@[i as int]));
        }
        let sub = term_subterms_vec(&xs[i]);
        let ghost out0 = view_terms(out@);
        append_terms(&mut out, &sub);
        proof {
            lemma_concat_to_set(out0, view_terms(sub@));
            lemma_subterms_terms_skip(vxs, i as int);
            assert(view_terms(out@).to_set() + spec_subterms_terms(vxs.skip(i + 1))
                =~= spec_subterms_terms(vxs));
        }
    }
    proof {
        assert(vxs.skip(xs@.len() as int) =~= Seq::<SpecTerm>::empty());
        assert(view_terms(out@).to_set() =~= spec_subterms_terms(vxs));
    }
    out
}

impl Term {
    /// All subterms of this term, itself included. The result lists every
    /// element of the subterm set, possibly with repetition.
    pub fn get_subterms(&self) -> (r: Vec<Term>)
        ensures
            view_terms(r@).to_set() == spec_subterms_term(self@),
    {
        term_subterms_vec(self)
    }
}

} // verus!
// The executable collectors over formulas follow. Each returns a vector
// that lists every element of the corresponding set, possibly with
// repetition; the contract ties the vector's elements to the set.

verus! {

use crate::language::view_symbols;
use crate::language::lemma_view_symbols;
use crate::language::view_formulas;
use crate::language::lemma_view_formulas;

/// Appends clones of `src`'s elements to `dst`.
pub fn append_symbols(dst: &mut Vec<NonLogicalSymbol>, src: &Vec<NonLogicalSymbol>)
    ensures
        view_symbols(final(dst)@) == view_symbols(old(dst)@) + view_symbols(src@),
{
    let ghost dst0 = old(dst)@;
    proof {
        lemma_view_symbols(src@);
    }
    for i in 0..src.len()
        invariant
            dst@.len() == dst0.len() + i,
            forall|j: int| 0 <= j < dst0.len() ==> dst@[j]@ == dst0[j]@,
            forall|j: int| 0 <= j < i ==> dst@[dst0.len() + j]@ == src@[j]@,
            forall|j: int| 0 <= j < src@.len() ==> view_symbols(src@)[j] == src@[j]@,
            view_symbols(src@).len() == src@.len(),
    {
        dst.push(src[i].clone());
    }
    proof {
        lemma_view_symbols(dst@);
        lemma_view_symbols(dst0);
        assert(view_symbols(dst@) =~= view_symbols(dst0) + view_symbols(src@));
    }
}

/// Collects the function symbols occurring in a term.
pub(crate) fn term_funcs_vec(t: &Term) -> (r: Vec<NonLogicalSymbol>)
    ensures
        view_symbols(r@).to_set() == spec_term_funcs(t@),
    decreases t,
{
    match t {
        Term::Var(_) => {
            let out: Vec<NonLogicalSymbol> = Vec::new();
            proof {
                lemma_view_symbols(out@);
                assert(view_symbols(out@).to_set() =~= Set::<SpecSymbol>::empty());
            }
            out
        },
        Term::Func(name, args) => {
            proof {
                assert(decreases_to!(*t => (*t)->Func_1));
            }
            let mut out = terms_funcs_vec(args);
            let ghost out0 = view_symbols(out@);
            let ghost sym = SpecSymbol { name: name@, arity: view_terms(args@).len() };
            proof {
                lemma_view_symbols(out@);
                lemma_view_terms(args@);
            }
            out.push(NonLogicalSymbol { name: name.clone(), arity: args.len() });
            proof {
                lemma_view_symbols(out@);
                assert(view_symbols(out@) =~= out0.push(sym));
                lemma_push_to_set(out0, sym);
                assert(view_symbols(out@).to_set() =~= spec_term_funcs(t@));
            }
            out
        },
    }
}

/// Collects the function symbols occurring in a vector of terms.
pub(crate) fn terms_funcs_vec(xs: &Vec<Term>) -> (r: Vec<NonLogicalSymbol>)
    ensures
        view_symbols(r@).to_set() == spec_terms_funcs(view_terms(xs@)),
    decreases *xs,
{
    let ghost vxs = view_terms(xs@);
    proof {
        lemma_view_terms(xs@);
    }
    let mut out: Vec<NonLogicalSymbol> = Vec::new();
    proof {
        assert(vxs.skip(0) =~= vxs);
        lemma_view_symbols(out@);
        assert(view_symbols(out@).to_set() =~= Set::<SpecSymbol>::empty());
    }
    for i in 0..xs.len()
        invariant
            view_symbols(out@).to_set() + spec_terms_funcs(vxs.skip(i as int))
                == spec_terms_funcs(vxs),
            vxs == view_terms(xs@),
            vxs.len() == xs@.len(),
            forall|j: int| 0 <= j < xs@.len() ==> vxs[j] == view_term(xs@[j]),
    {
        proof {
            assert(decreases_to!(*xs => xs@));
            assert(decreases_to!(xs@ => xs@[i as int]));
        }
        let sub = term_funcs_vec(&xs[i]);
        let ghost out0 = view_symbols(out@);
        append_symbols(&mut out, &sub);
        proof {
            lemma_concat_to_set(out0, view_symbols(sub@));
            lemma_terms_funcs_skip(vxs, i as int);
            assert(view_symbols(out@).to_set() + spec_terms_funcs(vxs.skip(i + 1))
                =~= spec_terms_funcs(vxs));
        }
    }
    proof {
        assert(vxs.skip(xs@.len() as int) =~= Seq::<SpecTerm>::empty());
        assert(view_symbols(out@).to_set() =~= spec_terms_funcs(vxs));
    }
    out
}

impl Formula {
    /// The variables with a free occurrence in this formula.
    pub fn get_free_vars(&self) -> (r: Vec<Term>)
        ensures
            view_terms(r@).to_set() == spec_free_vars(self@),
        decreases self,
    {
        match self {
            Formula::Pred(_, args) => terms_vars_vec(args),
            Formula::Equal(lhs, rhs) => {
                let mut out = term_vars_vec(lhs);
                let sub = term_vars_vec(rhs);
                let ghost out0 = view_terms(out@);
                append_terms(&mut out, &sub);
                proof {
                    lemma_concat_to_set(out0, view_terms(sub@));
                }
                out
            },
            Formula::Not(g) => g.get_free_vars(),
            Formula::And(lhs, rhs) => {
                let mut out = lhs.get_free_vars();
                let sub = rhs.get_free_vars();
                let ghost out0 = view_terms(out@);
                append_terms(&mut out, &sub);
                proof {
                    lemma_concat_to_set(out0, view_terms(sub@));
                }
                out
            },
            Formula::Or(lhs, rhs) => {
                let mut out = lhs.get_free_vars();
                let sub = rhs.get_free_vars();
                let ghost out0 = view_terms(out@);
                append_terms(&mut out, &sub);
                proof {
                    lemma_concat_to_set(out0, view_terms(sub@));
                }
                out
            },
            Formula::Implies(lhs, rhs) => {
                let mut out = lhs.get_free_vars();
                let sub = rhs.get_free_vars();
                let ghost out0 = view_terms(out@);
                append_terms(&mut out, &sub);
                proof {
                    lemma_concat_to_set(out0, view_terms(sub@));
                }
                out
            },
            Formula::Forall(v, g) => remove_var(&g.get_free_vars(), v),
            Formula::Exists(v, g) => remove_var(&g.get_free_vars(), v),
        }
    }

    /// The variables bound by some binder within this formula.
    pub fn get_bound_vars(&self) -> (r: Vec<Term>)
        ensures
            view_terms(r@).to_set() == spec_bound_vars(self@),
        decreases self,
    {
        match self {
            Formula::Pred(_, _) => {
                let out: Vec<Term> = Vec::new();
                proof {
                    lemma_view_terms(out@);
                    assert(view_terms(out@).to_set() =~= Set::<SpecTerm>::empty());
                }
                out
            },
            Formula::Equal(_, _) => {
                let out: Vec<Term> = Vec::new();
                proof {
                    lemma_view_terms(out@);
                    assert(view_terms(out@).to_set() =~= Set::<SpecTerm>::empty());
                }
                out
            },
            Formula::Not(g) => g.get_bound_vars(),
            Formula::And(lhs, rhs) => {
                let mut out = lhs.get_bound_vars();
                let sub = rhs.get_bound_vars();
                let ghost out0 = view_terms(out@);
                append_terms(&mut out, &sub);
                proof {
                    lemma_concat_to_set(out0, view_terms(sub@));
                }
                out
            },
            Formula::Or(lhs, rhs) => {
                let mut out = lhs.get_bound_vars();
                let sub = rhs.get_bound_vars();
                let ghost out0 = view_terms(out@);
                append_terms(&mut out, &sub);
                proof {
                    lemma_concat_to_set(out0, view_terms(sub@));
                }
                out
            },
            Formula::Implies(lhs, rhs) => {
                let mut out = lhs.get_bound_vars();
                let sub = rhs.get_bound_vars();
                let ghost out0 = view_terms(out@);
                append_terms(&mut out, &sub);
                proof {
                    lemma_concat_to_set(out0, view_terms(sub@));
                }
                out
            },
            Formula::Forall(v, g) => {
                let mut out = g.get_bound_vars();
                let ghost out0 = view_terms(out@);
                proof {
                    lemma_view_terms(out@);
                }
                out.push(v.clone());
                proof {
                    lemma_view_terms(out@);
                    assert(view_terms(out@) =~= out0.push(view_term(*v)));
                    lemma_push_to_set(out0, view_term(*v));
                }
                out
            },
            Formula::Exists(v, g) => {
                let mut out = g.get_bound_vars();
                let ghost out0 = view_terms(out@);
                proof {
                    lemma_view_terms(out@);
                }
                out.push(v.clone());
                proof {
                    lemma_view_terms(out@);
                    assert(view_terms(out@) =~= out0.push(view_term(*v)));
                    lemma_push_to_set(out0, view_term(*v));
                }
                out
            },
        }
    }
}

/// The elements of `xs` that are not equal to `v`.
fn remove_var(xs: &Vec<Term>, v: &Term) -> (r: Vec<Term>)
    ensures
        view_terms(r@).to_set() == view_terms(xs@).to_set().remove(v@),
{
    proof {
        lemma_view_terms(xs@);
    }
    let mut out: Vec<Term> = Vec::new();
    proof {
        lemma_view_terms(out@);
        assert(xs@.subrange(0, 0) =~= Seq::<Term>::empty());
        lemma_view_terms(xs@.subrange(0, 0));
        assert(view_terms(out@).to_set() =~= view_terms(
            xs@.subrange(0, 0),
        ).to_set().remove(v@));
    }
    for i in 0..xs.len()
        invariant
            view_terms(out@).to_set() == view_terms(xs@.subrange(0, i as int)).to_set().remove(
                v@,
            ),
            forall|j: int| 0 <= j < xs@.len() ==> view_terms(xs@)[j] == view_term(xs@[j]),
            view_terms(xs@).len() == xs@.len(),
    {
        let ghost pre = xs@.subrange(0, i as int);
        let ghost post = xs@.subrange(0, i + 1);
        proof {
            lemma_view_terms(pre);
            lemma_view_terms(post);
            assert(post =~= pre.push(xs@[i as int]));
            assert(view_terms(post) =~= view_terms(pre).push(view_term(xs@[i as int])));
            lemma_push_to_set(view_terms(pre), view_term(xs@[i as int]));
        }
        if !xs[i].term_eq(v) {
            let ghost out0 = view_terms(out@);
            proof {
                lemma_view_terms(out@);
            }
            out.push(xs[i].clone());
            proof {
                lemma_view_terms(out@);
                assert(view_terms(out@) =~= out0.push(view_term(xs@[i as int])));
                lemma_push_to_set(out0, view_term(xs@[i as int]));
                assert(view_terms(out@).to_set() =~= view_terms(post).to_set().remove(v@));
            }
        } else {
            proof {
                assert(view_terms(out@).to_set() =~= view_terms(post).to_set().remove(v@));
            }
        }
    }
    proof {
        assert(xs@.subrange(0, xs@.len() as int) =~= xs@);
    }
    out
}

} // verus!

verus! {

impl Formula {
    /// Every term occurring in this formula, with all of its subterms.
    pub fn get_subterms(&self) -> (r: Vec<Term>)
        ensures
            view_terms(r@).to_set() == spec_subterms_formula(self@),
        decreases self,
    {
        match self {
            Formula::Pred(_, args) => terms_subterms_vec(args),
            Formula::Equal(lhs, rhs) => {
                let mut out = term_subterms_vec(lhs);
                let sub = term_subterms_vec(rhs);
                let ghost out0 = view_terms(out@);
                append_terms(&mut out, &sub);
                proof {
                    lemma_concat_to_set(out0, view_terms(sub@));
                }
                out
            },
            Formula::Not(g) => g.get_subterms(),
            Formula::And(lhs, rhs) => {
                let mut out = lhs.get_subterms();
                let sub = rhs.get_subterms();
                let ghost out0 = view_terms(out@);
                append_terms(&mut out, &sub);
                proof {
                    lemma_concat_to_set(out0, view_terms(sub@));
                }
                out
            },
            Formula::Or(lhs, rhs) => {
                let mut out = lhs.get_subterms();
                let sub = rhs.get_subterms();
                let ghost out0 = view_terms(out@);
                append_terms(&mut out, &sub);
                proof {
                    lemma_concat_to_set(out0, view_terms(sub@));
                }
                out
            },
            Formula::Implies(lhs, rhs) => {
                let mut out = lhs.get_subterms();
                let sub = rhs.get_subterms();
                let ghost out0 = view_terms(out@);
                append_terms(&mut out, &sub);
                proof {
                    lemma_concat_to_set(out0, view_terms(sub@));
                }
                out
            },
            Formula::Forall(v, g) => {
                let mut out = term_subterms_vec(v);
                let sub = g.get_subterms();
                let ghost out0 = view_terms(out@);
                append_terms(&mut out, &sub);
                proof {
                    lemma_concat_to_set(out0, view_terms(sub@));
                }
                out
            },
            Formula::Exists(v, g) => {
                let mut out = term_subterms_vec(v);
                let sub = g.get_subterms();
                let ghost out0 = view_terms(out@);
                append_terms(&mut out, &sub);
                proof {
                    lemma_concat_to_set(out0, view_terms(sub@));
                }
                out
            },
        }
    }

    /// Every formula reachable from this one, itself included.
    pub fn get_subformulas(&self) -> (r: Vec<Formula>)
        ensures
            view_formulas(r@).to_set() == spec_subformulas(self@),
        decreases self,
    {
        let mut out: Vec<Formula> = match self {
            Formula::Pred(_, _) => Vec::new(),
            Formula::Equal(_, _) => Vec::new(),
            Formula::Not(g) => g.get_subformulas(),
            Formula::And(lhs, rhs) => {
                let mut out = lhs.get_subformulas();
                let sub = rhs.get_subformulas();
                let ghost out0 = view_formulas(out@);
                append_formulas(&mut out, &sub);
                proof {
                    lemma_concat_to_set(out0, view_formulas(sub@));
                }
                out
            },
            Formula::Or(lhs, rhs) => {
                let mut out = lhs.get_subformulas();
                let sub = rhs.get_subformulas();
                let ghost out0 = view_formulas(out@);
                append_formulas(&mut out, &sub);
                proof {
                    lemma_concat_to_set(out0, view_formulas(sub@));
                }
                out
            },
            Formula::Implies(lhs, rhs) => {
                let mut out = lhs.get_subformulas();
                let sub = rhs.get_subformulas();
                let ghost out0 = view_formulas(out@);
                append_formulas(&mut out, &sub);
                proof {
                    lemma_concat_to_set(out0, view_formulas(sub@));
                }
                out
            },
            Formula::Forall(_, g) => g.get_subformulas(),
            Formula::Exists(_, g) => g.get_subformulas(),
        };
        let ghost out0 = view_formulas(out@);
        proof {
            lemma_view_formulas(out@);
        }
        out.push(self.clone());
        proof {
            lemma_view_formulas(out@);
            assert(view_formulas(out@) =~= out0.push(self@));
            lemma_push_to_set(out0, self@);
            assert(view_formulas(out@).to_set() =~= spec_subformulas(self@));
        }
        out
    }

    /// The function symbols used anywhere in this formula, by name and arity.
    pub fn get_funcs(&self) -> (r: Vec<NonLogicalSymbol>)
        ensures
            view_symbols(r@).to_set() == spec_funcs(self@),
        decreases self,
    {
        match self {
            Formula::Pred(_, args) => terms_funcs_vec(args),
            Formula::Equal(lhs, rhs) => {
                let mut out = term_funcs_vec(lhs);
                let sub = term_funcs_vec(rhs);
                let ghost out0 = view_symbols(out@);
                append_symbols(&mut out, &sub);
                proof {
                    lemma_concat_to_set(out0, view_symbols(sub@));
                }
                out
            },
            Formula::Not(g) => g.get_funcs(),
            Formula::And(lhs, rhs) => {
                let mut out = lhs.get_funcs();
                let sub = rhs.get_funcs();
                let ghost out0 = view_symbols(out@);
                append_symbols(&mut out, &sub);
                proof {
                    lemma_concat_to_set(out0, view_symbols(sub@));
                }
                out
            },
            Formula::Or(lhs, rhs) => {
                let mut out = lhs.get_funcs();
                let sub = rhs.get_funcs();
                let ghost out0 = view_symbols(out@);
                append_symbols(&mut out, &sub);
                proof {
                    lemma_concat_to_set(out0, view_symbols(sub@));
                }
                out
            },
            Formula::Implies(lhs, rhs) => {
                let mut out = lhs.get_funcs();
                let sub = rhs.get_funcs();
                let ghost out0 = view_symbols(out@);
                append_symbols(&mut out, &sub);
                proof {
                    lemma_concat_to_set(out0, view_symbols(sub@));
                }
                out
            },
            Formula::Forall(v, g) => {
                let mut out = term_funcs_vec(v);
                let sub = g.get_funcs();
                let ghost out0 = view_symbols(out@);
                append_symbols(&mut out, &sub);
                proof {
                    lemma_concat_to_set(out0, view_symbols(sub@));
                }
                out
            },
            Formula::Exists(v, g) => {
                let mut out = term_funcs_vec(v);
                let sub = g.get_funcs();
                let ghost out0 = view_symbols(out@);
                append_symbols(&mut out, &sub);
                proof {
                    lemma_concat_to_set(out0, view_symbols(sub@));
                }
                out
            },
        }
    }

    /// The predicate symbols used anywhere in this formula, by name and arity.
    pub fn get_preds(&self) -> (r: Vec<NonLogicalSymbol>)
        ensures
            view_symbols(r@).to_set() == spec_preds(self@),
        decreases self,
    {
        match self {
            Formula::Pred(name, args) => {
                let mut out: Vec<NonLogicalSymbol> = Vec::new();
                proof {
                    lemma_view_terms(args@);
                }
                out.push(NonLogicalSymbol { name: name.clone(), arity: args.len() });
                proof {
                    lemma_view_symbols(out@);
                    let sym = SpecSymbol { name: name@, arity: view_terms(args@).len() };
                    assert(view_symbols(out@)[0] == sym);
                    assert(view_symbols(out@).contains(sym));
                    assert(view_symbols(out@).to_set() =~= Set::empty().insert(sym));
                }
                out
            },
            Formula::Equal(_, _) => {
                let out: Vec<NonLogicalSymbol> = Vec::new();
                proof {
                    lemma_view_symbols(out@);
                    assert(view_symbols(out@).to_set() =~= Set::<SpecSymbol>::empty());
                }
                out
            },
            Formula::Not(g) => g.get_preds(),
            Formula::And(lhs, rhs) => {
                let mut out = lhs.get_preds();
                let sub = rhs.get_preds();
                let ghost out0 = view_symbols(out@);
                append_symbols(&mut out, &sub);
                proof {
                    lemma_concat_to_set(out0, view_symbols(sub@));
                }
                out
            },
            Formula::Or(lhs, rhs) => {
                let mut out = lhs.get_preds();
                let sub = rhs.get_preds();
                let ghost out0 = view_symbols(out@);
                append_symbols(&mut out, &sub);
                proof {
                    lemma_concat_to_set(out0, view_symbols(sub@));
                }
                out
            },
            Formula::Implies(lhs, rhs) => {
                let mut out = lhs.get_preds();
                let sub = rhs.get_preds();
                let ghost out0 = view_symbols(out@);
                append_symbols(&mut out, &sub);
                proof {
                    lemma_concat_to_set(out0, view_symbols(sub@));
                }
                out
            },
            Formula::Forall(_, g) => g.get_preds(),
            Formula::Exists(_, g) => g.get_preds(),
        }
    }
}

} // verus!
