//! The LK proof tree and the per-rule validity predicate: one axiom rule,
//! fourteen one-premise rules, four two-premise rules and Cut, each node
//! carrying its own conclusion sequent.

use vstd::prelude::*;
use crate::language::SpecFormula;
use crate::language::SpecTerm;
use crate::sequent::Sequent;
use crate::sequent::SpecSequent;
use crate::ops::spec_free_vars;
use crate::ops::spec_bound_vars;
use crate::ops::spec_subterms_formula;
use crate::subst::spec_is_substitutible;
use crate::subst::spec_substitute;

verus! {

/// A node of an LK derivation: the rule it claims to apply, its premise
/// subtrees, and its own conclusion sequent.
#[derive(Debug)]
pub enum LK {
    Axiom(Sequent),
    WeakeningLeft(Box<LK>, Sequent),
    WeakeningRight(Box<LK>, Sequent),
    ContractionLeft(Box<LK>, Sequent),
    ContractionRight(Box<LK>, Sequent),
    ExchangeLeft(Box<LK>, Sequent),
    ExchangeRight(Box<LK>, Sequent),
    AndLeft1(Box<LK>, Sequent),
    AndLeft2(Box<LK>, Sequent),
    AndRight(Box<LK>, Box<LK>, Sequent),
    OrLeft(Box<LK>, Box<LK>, Sequent),
    OrRight1(Box<LK>, Sequent),
    OrRight2(Box<LK>, Sequent),
    ImpliesLeft(Box<LK>, Box<LK>, Sequent),
    ImpliesRight(Box<LK>, Sequent),
    NotLeft(Box<LK>, Sequent),
    NotRight(Box<LK>, Sequent),
    ForallLeft(Box<LK>, Sequent),
    ForallRight(Box<LK>, Sequent),
    ExistsLeft(Box<LK>, Sequent),
    ExistsRight(Box<LK>, Sequent),
    Cut(Box<LK>, Box<LK>, Sequent),
}

/// The mathematical model of an [`LK`] node.
#[verifier::ext_equal]
pub enum SpecLK {
    Axiom(SpecSequent),
    WeakeningLeft(Box<SpecLK>, SpecSequent),
    WeakeningRight(Box<SpecLK>, SpecSequent),
    ContractionLeft(Box<SpecLK>, SpecSequent),
    ContractionRight(Box<SpecLK>, SpecSequent),
    ExchangeLeft(Box<SpecLK>, SpecSequent),
    ExchangeRight(Box<SpecLK>, SpecSequent),
    AndLeft1(Box<SpecLK>, SpecSequent),
    AndLeft2(Box<SpecLK>, SpecSequent),
    AndRight(Box<SpecLK>, Box<SpecLK>, SpecSequent),
    OrLeft(Box<SpecLK>, Box<SpecLK>, SpecSequent),
    OrRight1(Box<SpecLK>, SpecSequent),
    OrRight2(Box<SpecLK>, SpecSequent),
    ImpliesLeft(Box<SpecLK>, Box<SpecLK>, SpecSequent),
    ImpliesRight(Box<SpecLK>, SpecSequent),
    NotLeft(Box<SpecLK>, SpecSequent),
    NotRight(Box<SpecLK>, SpecSequent),
    ForallLeft(Box<SpecLK>, SpecSequent),
    ForallRight(Box<SpecLK>, SpecSequent),
    ExistsLeft(Box<SpecLK>, SpecSequent),
    ExistsRight(Box<SpecLK>, SpecSequent),
    Cut(Box<SpecLK>, Box<SpecLK>, SpecSequent),
}

/// Model of an LK node, structurally.
pub open spec fn view_lk(lk: LK) -> SpecLK
    decreases lk,
{
    match lk {
        LK::Axiom(s) => SpecLK::Axiom(s@),
        LK::WeakeningLeft(p, s) => SpecLK::WeakeningLeft(Box::new(view_lk(*p)), s@),
        LK::WeakeningRight(p, s) => SpecLK::WeakeningRight(Box::new(view_lk(*p)), s@),
        LK::ContractionLeft(p, s) => SpecLK::ContractionLeft(Box::new(view_lk(*p)), s@),
        LK::ContractionRight(p, s) => SpecLK::ContractionRight(Box::new(view_lk(*p)), s@),
        LK::ExchangeLeft(p, s) => SpecLK::ExchangeLeft(Box::new(view_lk(*p)), s@),
        LK::ExchangeRight(p, s) => SpecLK::ExchangeRight(Box::new(view_lk(*p)), s@),
        LK::AndLeft1(p, s) => SpecLK::AndLeft1(Box::new(view_lk(*p)), s@),
        LK::AndLeft2(p, s) => SpecLK::AndLeft2(Box::new(view_lk(*p)), s@),
        LK::AndRight(l, r, s) => SpecLK::AndRight(
            Box::new(view_lk(*l)),
            Box::new(view_lk(*r)),
            s@,
        ),
        LK::OrLeft(l, r, s) => SpecLK::OrLeft(Box::new(view_lk(*l)), Box::new(view_lk(*r)), s@),
        LK::OrRight1(p, s) => SpecLK::OrRight1(Box::new(view_lk(*p)), s@),
        LK::OrRight2(p, s) => SpecLK::OrRight2(Box::new(view_lk(*p)), s@),
        LK::ImpliesLeft(l, r, s) => SpecLK::ImpliesLeft(
            Box::new(view_lk(*l)),
            Box::new(view_lk(*r)),
            s@,
        ),
        LK::ImpliesRight(p, s) => SpecLK::ImpliesRight(Box::new(view_lk(*p)), s@),
        LK::NotLeft(p, s) => SpecLK::NotLeft(Box::new(view_lk(*p)), s@),
        LK::NotRight(p, s) => SpecLK::NotRight(Box::new(view_lk(*p)), s@),
        LK::ForallLeft(p, s) => SpecLK::ForallLeft(Box::new(view_lk(*p)), s@),
        LK::ForallRight(p, s) => SpecLK::ForallRight(Box::new(view_lk(*p)), s@),
        LK::ExistsLeft(p, s) => SpecLK::ExistsLeft(Box::new(view_lk(*p)), s@),
        LK::ExistsRight(p, s) => SpecLK::ExistsRight(Box::new(view_lk(*p)), s@),
        LK::Cut(l, r, s) => SpecLK::Cut(Box::new(view_lk(*l)), Box::new(view_lk(*r)), s@),
    }
}

impl View for LK {
    type V = SpecLK;

    open spec fn view(&self) -> SpecLK {
        view_lk(*self)
    }
}

/// The conclusion sequent a node carries: what the node claims to derive.
pub open spec fn spec_conclusion(lk: SpecLK) -> SpecSequent {
    match lk {
        SpecLK::Axiom(s) => s,
        SpecLK::WeakeningLeft(_, s) => s,
        SpecLK::WeakeningRight(_, s) => s,
        SpecLK::ContractionLeft(_, s) => s,
        SpecLK::ContractionRight(_, s) => s,
        SpecLK::ExchangeLeft(_, s) => s,
        SpecLK::ExchangeRight(_, s) => s,
        SpecLK::AndLeft1(_, s) => s,
        SpecLK::AndLeft2(_, s) => s,
        SpecLK::AndRight(_, _, s) => s,
        SpecLK::OrLeft(_, _, s) => s,
        SpecLK::OrRight1(_, s) => s,
        SpecLK::OrRight2(_, s) => s,
        SpecLK::ImpliesLeft(_, _, s) => s,
        SpecLK::ImpliesRight(_, s) => s,
        SpecLK::NotLeft(_, s) => s,
        SpecLK::NotRight(_, s) => s,
        SpecLK::ForallLeft(_, s) => s,
        SpecLK::ForallRight(_, s) => s,
        SpecLK::ExistsLeft(_, s) => s,
        SpecLK::ExistsRight(_, s) => s,
        SpecLK::Cut(_, _, s) => s,
    }
}

/// The axiom rule: the identity sequent with equal, non-empty sides, or
/// the reflexivity sequent with empty antecedent and a single trivially
/// true equation.
pub open spec fn spec_valid_axiom(c: SpecSequent) -> bool {
    ||| (c.antecedent == c.succedent && c.antecedent.len() > 0)
    ||| (c.antecedent.len() == 0 && c.succedent.len() == 1 && match c.succedent[0] {
        SpecFormula::Equal(s, t) => s == t,
        _ => false,
    })
}

/// Weakening on the left: an arbitrary formula was prefixed to the
/// antecedent.
pub open spec fn spec_valid_weakening_left(p: SpecSequent, c: SpecSequent) -> bool {
    p.antecedent == c.antecedent.drop_first() && p.succedent == c.succedent
}

/// Weakening on the right: an arbitrary formula was appended to the
/// succedent.
pub open spec fn spec_valid_weakening_right(p: SpecSequent, c: SpecSequent) -> bool {
    p.antecedent == c.antecedent && p.succedent == c.succedent.drop_last()
}

/// Contraction on the left: the premise's first two antecedent formulas
/// are equal, and dropping one yields the conclusion.
pub open spec fn spec_valid_contraction_left(p: SpecSequent, c: SpecSequent) -> bool {
    &&& p.antecedent[0] == p.antecedent[1]
    &&& p.antecedent.drop_first() == c.antecedent
    &&& p.succedent == c.succedent
}

/// Contraction on the right: the premise's last two succedent formulas
/// are equal, and dropping one yields the conclusion.
pub open spec fn spec_valid_contraction_right(p: SpecSequent, c: SpecSequent) -> bool {
    &&& p.succedent[p.succedent.len() - 2] == p.succedent.last()
    &&& p.succedent.drop_last() == c.succedent
    &&& p.antecedent == c.antecedent
}

/// The two lists agree everywhere except at positions `i` and `i + 1`,
/// which are swapped.
pub open spec fn spec_adjacent_swap(a: Seq<SpecFormula>, b: Seq<SpecFormula>, i: int) -> bool {
    &&& a.len() == b.len()
    &&& 0 <= i
    &&& i + 1 < a.len()
    &&& b[i] == a[i + 1]
    &&& b[i + 1] == a[i]
    &&& forall|j: int| 0 <= j < a.len() && j != i && j != i + 1 ==> a[j] == b[j]
}

/// Exchange on the left: the antecedents differ by one adjacent
/// transposition.
pub open spec fn spec_valid_exchange_left(p: SpecSequent, c: SpecSequent) -> bool {
    &&& p.succedent == c.succedent
    &&& exists|i: int| spec_adjacent_swap(p.antecedent, c.antecedent, i)
}

/// Exchange on the right: the succedents differ by one adjacent
/// transposition.
pub open spec fn spec_valid_exchange_right(p: SpecSequent, c: SpecSequent) -> bool {
    &&& p.antecedent == c.antecedent
    &&& exists|i: int| spec_adjacent_swap(p.succedent, c.succedent, i)
}

/// Left conjunction introduction from the first conjunct.
pub open spec fn spec_valid_and_left1(p: SpecSequent, c: SpecSequent) -> bool {
    &&& p.antecedent.drop_first() == c.antecedent.drop_first()
    &&& p.succedent == c.succedent
    &&& match c.antecedent[0] {
        SpecFormula::And(phi, _) => p.antecedent[0] == *phi,
        _ => false,
    }
}

/// Left conjunction introduction from the second conjunct.
pub open spec fn spec_valid_and_left2(p: SpecSequent, c: SpecSequent) -> bool {
    &&& p.antecedent.drop_first() == c.antecedent.drop_first()
    &&& p.succedent == c.succedent
    &&& match c.antecedent[0] {
        SpecFormula::And(_, psi) => p.antecedent[0] == *psi,
        _ => false,
    }
}

/// Right conjunction introduction: both premises share the conclusion's
/// context exactly, and their last succedent formulas are the conjuncts.
pub open spec fn spec_valid_and_right(l: SpecSequent, r: SpecSequent, c: SpecSequent) -> bool {
    &&& l.antecedent == c.antecedent
    &&& r.antecedent == c.antecedent
    &&& l.succedent.drop_last() == c.succedent.drop_last()
    &&& r.succedent.drop_last() == c.succedent.drop_last()
    &&& match c.succedent.last() {
        SpecFormula::And(phi, psi) => l.succedent.last() == *phi && r.succedent.last() == *psi,
        _ => false,
    }
}

/// Left disjunction introduction: dual of [`spec_valid_and_right`] on the
/// antecedent.
pub open spec fn spec_valid_or_left(l: SpecSequent, r: SpecSequent, c: SpecSequent) -> bool {
    &&& l.succedent == c.succedent
    &&& r.succedent == c.succedent
    &&& l.antecedent.drop_first() == c.antecedent.drop_first()
    &&& r.antecedent.drop_first() == c.antecedent.drop_first()
    &&& match c.antecedent[0] {
        SpecFormula::Or(phi, psi) => l.antecedent[0] == *phi && r.antecedent[0] == *psi,
        _ => false,
    }
}

/// Right disjunction introduction from the first disjunct.
pub open spec fn spec_valid_or_right1(p: SpecSequent, c: SpecSequent) -> bool {
    &&& p.antecedent == c.antecedent
    &&& p.succedent.drop_last() == c.succedent.drop_last()
    &&& match c.succedent.last() {
        SpecFormula::Or(phi, _) => p.succedent.last() == *phi,
        _ => false,
    }
}

/// Right disjunction introduction from the second disjunct.
pub open spec fn spec_valid_or_right2(p: SpecSequent, c: SpecSequent) -> bool {
    &&& p.antecedent == c.antecedent
    &&& p.succedent.drop_last() == c.succedent.drop_last()
    &&& match c.succedent.last() {
        SpecFormula::Or(_, psi) => p.succedent.last() == *psi,
        _ => false,
    }
}

/// Left implication introduction, with a multiplicative context split:
/// the conclusion's remaining antecedent is the left premise's antecedent
/// followed by the right premise's remaining antecedent, and its succedent
/// is the left premise's remaining succedent followed by the right
/// premise's succedent.
pub open spec fn spec_valid_implies_left(l: SpecSequent, r: SpecSequent, c: SpecSequent) -> bool {
    &&& c.antecedent.drop_first() == l.antecedent + r.antecedent.drop_first()
    &&& c.succedent == l.succedent.drop_last() + r.succedent
    &&& match c.antecedent[0] {
        SpecFormula::Implies(phi, psi) => l.succedent.last() == *phi && r.antecedent[0] == *psi,
        _ => false,
    }
}

/// Right implication introduction.
pub open spec fn spec_valid_implies_right(p: SpecSequent, c: SpecSequent) -> bool {
    &&& p.antecedent.drop_first() == c.antecedent
    &&& p.succedent.drop_last() == c.succedent.drop_last()
    &&& match c.succedent.last() {
        SpecFormula::Implies(phi, psi) => *phi == p.antecedent[0] && *psi == p.succedent.last(),
        _ => false,
    }
}

/// Left negation introduction.
pub open spec fn spec_valid_not_left(p: SpecSequent, c: SpecSequent) -> bool {
    &&& p.antecedent == c.antecedent.drop_first()
    &&& p.succedent.drop_last() == c.succedent
    &&& match c.antecedent[0] {
        SpecFormula::Not(phi) => *phi == p.succedent.last(),
        _ => false,
    }
}

/// Right negation introduction.
pub open spec fn spec_valid_not_right(p: SpecSequent, c: SpecSequent) -> bool {
    &&& p.antecedent.drop_first() == c.antecedent
    &&& p.succedent == c.succedent.drop_last()
    &&& match c.succedent.last() {
        SpecFormula::Not(phi) => *phi == p.antecedent[0],
        _ => false,
    }
}

/// Universal instantiation on the left: the conclusion's first antecedent
/// formula is `Forall(v, phi)` with `v` not bound again inside `phi`, and
/// some subterm `t` of the premise's first antecedent formula instantiates
/// `phi` to it, capture-free.
pub open spec fn spec_valid_forall_left(p: SpecSequent, c: SpecSequent) -> bool {
    &&& p.succedent == c.succedent
    &&& p.antecedent.drop_first() == c.antecedent.drop_first()
    &&& match c.antecedent[0] {
        SpecFormula::Forall(v, phi) => {
            &&& !spec_bound_vars(*phi).contains(v)
            &&& exists|t: SpecTerm|
                {
                    &&& #[trigger] spec_subterms_formula(p.antecedent[0]).contains(t)
                    &&& spec_is_substitutible(*phi, v, t)
                    &&& spec_substitute(*phi, v, t) == p.antecedent[0]
                }
        },
        _ => false,
    }
}

/// Existential instantiation on the right: dual of
/// [`spec_valid_forall_left`] on the succedent.
pub open spec fn spec_valid_exists_right(p: SpecSequent, c: SpecSequent) -> bool {
    &&& p.antecedent == c.antecedent
    &&& p.succedent.drop_last() == c.succedent.drop_last()
    &&& match c.succedent.last() {
        SpecFormula::Exists(v, phi) => {
            &&& !spec_bound_vars(*phi).contains(v)
            &&& exists|t: SpecTerm|
                {
                    &&& #[trigger] spec_subterms_formula(p.succedent.last()).contains(t)
                    &&& spec_is_substitutible(*phi, v, t)
                    &&& spec_substitute(*phi, v, t) == p.succedent.last()
                }
        },
        _ => false,
    }
}

/// Some formula of the list has `y` among its free variables.
pub open spec fn spec_free_in_formulas(fs: Seq<SpecFormula>, y: SpecTerm) -> bool {
    exists|i: int| 0 <= i < fs.len() && #[trigger] spec_free_vars(fs[i]).contains(y)
}

/// Universal generalization on the right: some free variable `y` of the
/// premise's last succedent formula instantiates `phi` to it capture-free,
/// and `y` is fresh with respect to the surrounding context (the
/// eigenvariable condition).
pub open spec fn spec_valid_forall_right(p: SpecSequent, c: SpecSequent) -> bool {
    &&& p.antecedent == c.antecedent
    &&& p.succedent.drop_last() == c.succedent.drop_last()
    &&& match c.succedent.last() {
        SpecFormula::Forall(v, phi) => exists|y: SpecTerm|
            {
                &&& #[trigger] spec_free_vars(p.succedent.last()).contains(y)
                &&& spec_is_substitutible(*phi, v, y)
                &&& spec_substitute(*phi, v, y) == p.succedent.last()
                &&& !spec_free_in_formulas(p.antecedent, y)
                &&& !spec_free_in_formulas(p.succedent.drop_last(), y)
            },
        _ => false,
    }
}

/// Existential generalization on the left: dual of
/// [`spec_valid_forall_right`] on the antecedent, with the eigenvariable
/// condition checked against the premise's succedent and remaining
/// antecedent.
pub open spec fn spec_valid_exists_left(p: SpecSequent, c: SpecSequent) -> bool {
    &&& p.succedent == c.succedent
    &&& p.antecedent.drop_first() == c.antecedent.drop_first()
    &&& match c.antecedent[0] {
        SpecFormula::Exists(v, phi) => exists|y: SpecTerm|
            {
                &&& #[trigger] spec_free_vars(p.antecedent[0]).contains(y)
                &&& spec_is_substitutible(*phi, v, y)
                &&& spec_substitute(*phi, v, y) == p.antecedent[0]
                &&& !spec_free_in_formulas(p.succedent, y)
                &&& !spec_free_in_formulas(p.antecedent.drop_first(), y)
            },
        _ => false,
    }
}

/// Cut: the left premise's last succedent formula equals the right
/// premise's first antecedent formula, and the conclusion concatenates
/// the remaining contexts.
pub open spec fn spec_valid_cut(l: SpecSequent, r: SpecSequent, c: SpecSequent) -> bool {
    &&& l.succedent.last() == r.antecedent[0]
    &&& c.antecedent == l.antecedent + r.antecedent.drop_first()
    &&& c.succedent == l.succedent.drop_last() + r.succedent
}

/// The non-emptiness conditions a rule application needs before its
/// positional accesses are meaningful: the checker requires them, and an
/// access to an empty list is a caller error, never a "rule invalid"
/// verdict.
pub open spec fn spec_step_wf(lk: SpecLK) -> bool {
    match lk {
        SpecLK::Axiom(_) => true,
        SpecLK::WeakeningLeft(_, c) => c.antecedent.len() >= 1,
        SpecLK::WeakeningRight(_, c) => c.succedent.len() >= 1,
        SpecLK::ContractionLeft(p, _) => spec_conclusion(*p).antecedent.len() >= 2,
        SpecLK::ContractionRight(p, _) => spec_conclusion(*p).succedent.len() >= 2,
        SpecLK::ExchangeLeft(p, _) => spec_conclusion(*p).antecedent.len() >= 1,
        SpecLK::ExchangeRight(p, _) => spec_conclusion(*p).succedent.len() >= 1,
        SpecLK::AndLeft1(p, c) => c.antecedent.len() >= 1 && spec_conclusion(*p).antecedent.len()
            >= 1,
        SpecLK::AndLeft2(p, c) => c.antecedent.len() >= 1 && spec_conclusion(*p).antecedent.len()
            >= 1,
        SpecLK::AndRight(l, r, c) => c.succedent.len() >= 1 && spec_conclusion(*l).succedent.len()
            >= 1 && spec_conclusion(*r).succedent.len() >= 1,
        SpecLK::OrLeft(l, r, c) => c.antecedent.len() >= 1 && spec_conclusion(*l).antecedent.len()
            >= 1 && spec_conclusion(*r).antecedent.len() >= 1,
        SpecLK::OrRight1(p, c) => c.succedent.len() >= 1 && spec_conclusion(*p).succedent.len()
            >= 1,
        SpecLK::OrRight2(p, c) => c.succedent.len() >= 1 && spec_conclusion(*p).succedent.len()
            >= 1,
        SpecLK::ImpliesLeft(l, r, c) => c.antecedent.len() >= 1 && spec_conclusion(
            *l,
        ).succedent.len() >= 1 && spec_conclusion(*r).antecedent.len() >= 1,
        SpecLK::ImpliesRight(p, c) => c.succedent.len() >= 1 && spec_conclusion(
            *p,
        ).antecedent.len() >= 1 && spec_conclusion(*p).succedent.len() >= 1,
        SpecLK::NotLeft(p, c) => c.antecedent.len() >= 1 && spec_conclusion(*p).succedent.len()
            >= 1,
        SpecLK::NotRight(p, c) => c.succedent.len() >= 1 && spec_conclusion(*p).antecedent.len()
            >= 1,
        SpecLK::ForallLeft(p, c) => c.antecedent.len() >= 1 && spec_conclusion(
            *p,
        ).antecedent.len() >= 1,
        SpecLK::ForallRight(p, c) => c.succedent.len() >= 1 && spec_conclusion(*p).succedent.len()
            >= 1,
        SpecLK::ExistsLeft(p, c) => c.antecedent.len() >= 1 && spec_conclusion(
            *p,
        ).antecedent.len() >= 1,
        SpecLK::ExistsRight(p, c) => c.succedent.len() >= 1 && spec_conclusion(*p).succedent.len()
            >= 1,
        SpecLK::Cut(l, r, _) => spec_conclusion(*l).succedent.len() >= 1 && spec_conclusion(
            *r,
        ).antecedent.len() >= 1,
    }
}

/// Whether the one inference at the root of the node is a legal
/// application of its rule, relating the premises' stored conclusions to
/// the node's conclusion. Premise subtrees are not checked recursively.
pub open spec fn spec_valid_step(lk: SpecLK) -> bool {
    match lk {
        SpecLK::Axiom(c) => spec_valid_axiom(c),
        SpecLK::WeakeningLeft(p, c) => spec_valid_weakening_left(spec_conclusion(*p), c),
        SpecLK::WeakeningRight(p, c) => spec_valid_weakening_right(spec_conclusion(*p), c),
        SpecLK::ContractionLeft(p, c) => spec_valid_contraction_left(spec_conclusion(*p), c),
        SpecLK::ContractionRight(p, c) => spec_valid_contraction_right(spec_conclusion(*p), c),
        SpecLK::ExchangeLeft(p, c) => spec_valid_exchange_left(spec_conclusion(*p), c),
        SpecLK::ExchangeRight(p, c) => spec_valid_exchange_right(spec_conclusion(*p), c),
        SpecLK::AndLeft1(p, c) => spec_valid_and_left1(spec_conclusion(*p), c),
        SpecLK::AndLeft2(p, c) => spec_valid_and_left2(spec_conclusion(*p), c),
        SpecLK::AndRight(l, r, c) => spec_valid_and_right(
            spec_conclusion(*l),
            spec_conclusion(*r),
            c,
        ),
        SpecLK::OrLeft(l, r, c) => spec_valid_or_left(spec_conclusion(*l), spec_conclusion(*r), c),
        SpecLK::OrRight1(p, c) => spec_valid_or_right1(spec_conclusion(*p), c),
        SpecLK::OrRight2(p, c) => spec_valid_or_right2(spec_conclusion(*p), c),
        SpecLK::ImpliesLeft(l, r, c) => spec_valid_implies_left(
            spec_conclusion(*l),
            spec_conclusion(*r),
            c,
        ),
        SpecLK::ImpliesRight(p, c) => spec_valid_implies_right(spec_conclusion(*p), c),
        SpecLK::NotLeft(p, c) => spec_valid_not_left(spec_conclusion(*p), c),
        SpecLK::NotRight(p, c) => spec_valid_not_right(spec_conclusion(*p), c),
        SpecLK::ForallLeft(p, c) => spec_valid_forall_left(spec_conclusion(*p), c),
        SpecLK::ForallRight(p, c) => spec_valid_forall_right(spec_conclusion(*p), c),
        SpecLK::ExistsLeft(p, c) => spec_valid_exists_left(spec_conclusion(*p), c),
        SpecLK::ExistsRight(p, c) => spec_valid_exists_right(spec_conclusion(*p), c),
        SpecLK::Cut(l, r, c) => spec_valid_cut(spec_conclusion(*l), spec_conclusion(*r), c),
    }
}

impl LK {
    /// The conclusion sequent this node carries.
    pub fn last(&self) -> (r: &Sequent)
        ensures
            r@ == spec_conclusion(self@),
    {
        match self {
            LK::Axiom(s) => s,
            LK::WeakeningLeft(_, s) => s,
            LK::WeakeningRight(_, s) => s,
            LK::ContractionLeft(_, s) => s,
            LK::ContractionRight(_, s) => s,
            LK::ExchangeLeft(_, s) => s,
            LK::ExchangeRight(_, s) => s,
            LK::AndLeft1(_, s) => s,
            LK::AndLeft2(_, s) => s,
            LK::AndRight(_, _, s) => s,
            LK::OrLeft(_, _, s) => s,
            LK::OrRight1(_, s) => s,
            LK::OrRight2(_, s) => s,
            LK::ImpliesLeft(_, _, s) => s,
            LK::ImpliesRight(_, s) => s,
            LK::NotLeft(_, s) => s,
            LK::NotRight(_, s) => s,
            LK::ForallLeft(_, s) => s,
            LK::ForallRight(_, s) => s,
            LK::ExistsLeft(_, s) => s,
            LK::ExistsRight(_, s) => s,
            LK::Cut(_, _, s) => s,
        }
    }
}

impl Clone for LK {
    /// Deep copy with the same model.
    fn clone(&self) -> (r: LK)
        ensures
            r@ == self@,
        decreases self,
    {
        match self {
            LK::Axiom(s) => LK::Axiom(s.clone()),
            LK::WeakeningLeft(p, s) => LK::WeakeningLeft(Box::new((**p).clone()), s.clone()),
            LK::WeakeningRight(p, s) => LK::WeakeningRight(Box::new((**p).clone()), s.clone()),
            LK::ContractionLeft(p, s) => LK::ContractionLeft(Box::new((**p).clone()), s.clone()),
            LK::ContractionRight(p, s) => LK::ContractionRight(Box::new((**p).clone()), s.clone()),
            LK::ExchangeLeft(p, s) => LK::ExchangeLeft(Box::new((**p).clone()), s.clone()),
            LK::ExchangeRight(p, s) => LK::ExchangeRight(Box::new((**p).clone()), s.clone()),
            LK::AndLeft1(p, s) => LK::AndLeft1(Box::new((**p).clone()), s.clone()),
            LK::AndLeft2(p, s) => LK::AndLeft2(Box::new((**p).clone()), s.clone()),
            LK::AndRight(l, r, s) => LK::AndRight(
                Box::new((**l).clone()),
                Box::new((**r).clone()),
                s.clone(),
            ),
            LK::OrLeft(l, r, s) => LK::OrLeft(
                Box::new((**l).clone()),
                Box::new((**r).clone()),
                s.clone(),
            ),
            LK::OrRight1(p, s) => LK::OrRight1(Box::new((**p).clone()), s.clone()),
            LK::OrRight2(p, s) => LK::OrRight2(Box::new((**p).clone()), s.clone()),
            LK::ImpliesLeft(l, r, s) => LK::ImpliesLeft(
                Box::new((**l).clone()),
                Box::new((**r).clone()),
                s.clone(),
            ),
            LK::ImpliesRight(p, s) => LK::ImpliesRight(Box::new((**p).clone()), s.clone()),
            LK::NotLeft(p, s) => LK::NotLeft(Box::new((**p).clone()), s.clone()),
            LK::NotRight(p, s) => LK::NotRight(Box::new((**p).clone()), s.clone()),
            LK::ForallLeft(p, s) => LK::ForallLeft(Box::new((**p).clone()), s.clone()),
            LK::ForallRight(p, s) => LK::ForallRight(Box::new((**p).clone()), s.clone()),
            LK::ExistsLeft(p, s) => LK::ExistsLeft(Box::new((**p).clone()), s.clone()),
            LK::ExistsRight(p, s) => LK::ExistsRight(Box::new((**p).clone()), s.clone()),
            LK::Cut(l, r, s) => LK::Cut(
                Box::new((**l).clone()),
                Box::new((**r).clone()),
                s.clone(),
            ),
        }
    }
}

} // verus!
