use std::collections::HashSet;

use lk_checker::checker::Proof;
use lk_checker::language::Formula;
use lk_checker::language::Term;
use lk_checker::lk::LK;
use lk_checker::sequent::Sequent;

fn var(name: &str) -> Term {
    Term::Var(name.into())
}

fn func(name: &str, args: Vec<Term>) -> Term {
    Term::Func(name.into(), args)
}

fn pred(name: &str, args: Vec<Term>) -> Formula {
    Formula::Pred(name.into(), args)
}

fn seqt(antecedent: Vec<Formula>, succedent: Vec<Formula>) -> Sequent {
    Sequent {
        antecedent,
        succedent,
    }
}

#[test]
fn axiom_identity_valid() {
    let node = LK::Axiom(seqt(vec![pred("p", vec![])], vec![pred("p", vec![])]));
    assert!(node.is_valid_inference());
}

#[test]
fn axiom_reflexivity_valid() {
    let node = LK::Axiom(seqt(
        vec![],
        vec![Formula::Equal(var("x"), var("x"))],
    ));
    assert!(node.is_valid_inference());
}

#[test]
fn axiom_unequal_sides_invalid() {
    let node = LK::Axiom(seqt(vec![pred("p", vec![])], vec![pred("q", vec![])]));
    assert!(!node.is_valid_inference());
    let refl = LK::Axiom(seqt(vec![], vec![Formula::Equal(var("x"), var("y"))]));
    assert!(!refl.is_valid_inference());
}

#[test]
fn weakening_left_valid_and_mutated() {
    let premise = LK::Axiom(seqt(vec![pred("p", vec![])], vec![pred("p", vec![])]));
    let good = LK::WeakeningLeft(
        Box::new(premise.clone()),
        seqt(
            vec![pred("r", vec![]), pred("p", vec![])],
            vec![pred("p", vec![])],
        ),
    );
    assert!(good.is_valid_inference());
    // mutating the copied element must flip the verdict
    let bad = LK::WeakeningLeft(
        Box::new(premise),
        seqt(
            vec![pred("r", vec![]), pred("s", vec![])],
            vec![pred("p", vec![])],
        ),
    );
    assert!(!bad.is_valid_inference());
}

#[test]
fn contraction_left_valid_and_mutated() {
    let premise = LK::Axiom(seqt(
        vec![pred("p", vec![]), pred("p", vec![])],
        vec![pred("p", vec![])],
    ));
    let good = LK::ContractionLeft(
        Box::new(premise.clone()),
        seqt(vec![pred("p", vec![])], vec![pred("p", vec![])]),
    );
    assert!(good.is_valid_inference());
    let bad = LK::ContractionLeft(
        Box::new(premise),
        seqt(vec![pred("q", vec![])], vec![pred("p", vec![])]),
    );
    assert!(!bad.is_valid_inference());
}

#[test]
fn exchange_left_one_transposition() {
    let a = pred("a", vec![]);
    let b = pred("b", vec![]);
    let c = pred("c", vec![]);
    let s = pred("s", vec![]);
    let premise = LK::Axiom(seqt(
        vec![a.clone(), b.clone(), c.clone()],
        vec![s.clone()],
    ));
    // adjacent swap of the first two: valid
    let good = LK::ExchangeLeft(
        Box::new(premise.clone()),
        seqt(vec![b.clone(), a.clone(), c.clone()], vec![s.clone()]),
    );
    assert!(good.is_valid_inference());
    // a rotation moves more than one adjacent pair: invalid
    let bad = LK::ExchangeLeft(
        Box::new(premise.clone()),
        seqt(vec![b.clone(), c.clone(), a.clone()], vec![s.clone()]),
    );
    assert!(!bad.is_valid_inference());
    // swapping a non-adjacent pair: invalid
    let far = LK::ExchangeLeft(
        Box::new(premise),
        seqt(vec![c, b, a], vec![s]),
    );
    assert!(!far.is_valid_inference());
}

#[test]
fn exchange_right_one_transposition() {
    let a = pred("a", vec![]);
    let b = pred("b", vec![]);
    let premise = LK::Axiom(seqt(vec![], vec![a.clone(), b.clone()]));
    let good = LK::ExchangeRight(
        Box::new(premise.clone()),
        seqt(vec![], vec![b.clone(), a.clone()]),
    );
    assert!(good.is_valid_inference());
    let same = LK::ExchangeRight(Box::new(premise), seqt(vec![], vec![a, b]));
    assert!(!same.is_valid_inference());
}

#[test]
fn and_right_shared_context() {
    let p = pred("p", vec![]);
    let q = pred("q", vec![]);
    let l = LK::Axiom(seqt(vec![p.clone()], vec![p.clone()]));
    let r = LK::Axiom(seqt(vec![p.clone()], vec![q.clone()]));
    let good = LK::AndRight(
        Box::new(l.clone()),
        Box::new(r.clone()),
        seqt(
            vec![p.clone()],
            vec![Formula::And(Box::new(p.clone()), Box::new(q.clone()))],
        ),
    );
    assert!(good.is_valid_inference());
    // a premise whose antecedent differs from the conclusion's: invalid
    let r_off = LK::Axiom(seqt(vec![q.clone()], vec![q.clone()]));
    let bad = LK::AndRight(
        Box::new(l),
        Box::new(r_off),
        seqt(vec![p.clone()], vec![Formula::And(Box::new(p), Box::new(q))]),
    );
    assert!(!bad.is_valid_inference());
}

#[test]
fn cut_standard_form() {
    let p = pred("p", vec![]);
    let q = pred("q", vec![]);
    let l = LK::Axiom(seqt(vec![], vec![p.clone()]));
    let r = LK::Axiom(seqt(vec![p.clone()], vec![q.clone()]));
    let good = LK::Cut(
        Box::new(l.clone()),
        Box::new(r.clone()),
        seqt(vec![], vec![q.clone()]),
    );
    assert!(good.is_valid_inference());
    // a conclusion that keeps the cut formula: invalid
    let bad = LK::Cut(Box::new(l), Box::new(r), seqt(vec![p], vec![q]));
    assert!(!bad.is_valid_inference());
}

#[test]
fn implies_right_discharges() {
    let p = pred("p", vec![]);
    let q = pred("q", vec![]);
    let premise = LK::Axiom(seqt(vec![p.clone()], vec![q.clone()]));
    let node = LK::ImpliesRight(
        Box::new(premise),
        seqt(
            vec![],
            vec![Formula::Implies(Box::new(p), Box::new(q))],
        ),
    );
    assert!(node.is_valid_inference());
}

#[test]
fn forall_left_instantiates() {
    // forall x. p(x) entails p(c)
    let phi = pred("p", vec![var("x")]);
    let inst = pred("p", vec![func("c", vec![var("z")])]);
    let premise = LK::Axiom(seqt(vec![inst.clone()], vec![inst.clone()]));
    let node = LK::ForallLeft(
        Box::new(premise),
        seqt(
            vec![Formula::Forall(var("x"), Box::new(phi))],
            vec![inst],
        ),
    );
    assert!(node.is_valid_inference());
}

#[test]
fn forall_left_capture_rejected() {
    // instantiating x with f(y) under a binder on y would capture y
    let phi = Formula::Forall(var("y"), Box::new(pred("p", vec![var("x")])));
    let captured = Formula::Forall(
        var("y"),
        Box::new(pred("p", vec![func("f", vec![var("y")])])),
    );
    assert!(!phi.is_substitutible(&var("x"), &func("f", vec![var("y")])));
    let premise = LK::Axiom(seqt(vec![captured.clone()], vec![captured.clone()]));
    let node = LK::ForallLeft(
        Box::new(premise),
        seqt(
            vec![Formula::Forall(var("x"), Box::new(phi))],
            vec![captured],
        ),
    );
    assert!(!node.is_valid_inference());
}

#[test]
fn forall_right_eigenvariable() {
    // p(y) in the succedent alone generalizes to forall x. p(x)
    let phi = pred("p", vec![var("x")]);
    let witness = pred("p", vec![var("y")]);
    let premise = LK::Axiom(seqt(vec![], vec![witness.clone()]));
    let node = LK::ForallRight(
        Box::new(premise),
        seqt(vec![], vec![Formula::Forall(var("x"), Box::new(phi.clone()))]),
    );
    assert!(node.is_valid_inference());
    // with y free in the antecedent the eigenvariable condition fails
    let tainted = LK::Axiom(seqt(
        vec![pred("q", vec![var("y")])],
        vec![pred("p", vec![var("y")])],
    ));
    let bad = LK::ForallRight(
        Box::new(tainted),
        seqt(
            vec![pred("q", vec![var("y")])],
            vec![Formula::Forall(var("x"), Box::new(phi))],
        ),
    );
    assert!(!bad.is_valid_inference());
}

#[test]
fn free_and_bound_may_overlap() {
    // x is free in the left conjunct and bound in the right one
    let formula = Formula::And(
        Box::new(pred("p", vec![var("x")])),
        Box::new(Formula::Forall(var("x"), Box::new(pred("q", vec![var("x")])))),
    );
    let free = formula.get_free_vars();
    let bound = formula.get_bound_vars();
    assert!(free.contains(&var("x")));
    assert!(bound.contains(&var("x")));
}

#[test]
fn substitute_replaces_free_occurrences() {
    // substituting y for x leaves the occurrence under a rebinding of x
    let formula = Formula::And(
        Box::new(pred("p", vec![var("x")])),
        Box::new(Formula::Forall(var("x"), Box::new(pred("q", vec![var("x")])))),
    );
    let result = formula.substitute(&var("x"), &var("y"));
    let expected = Formula::And(
        Box::new(pred("p", vec![var("y")])),
        Box::new(Formula::Forall(var("x"), Box::new(pred("q", vec![var("x")])))),
    );
    assert_eq!(expected, result);
}

#[test]
fn render_axiom_line() {
    let node = LK::Axiom(seqt(vec![pred("p", vec![])], vec![pred("p", vec![])]));
    assert_eq!("p \u{21d2}  p", node.to_string());
}

#[test]
fn render_weakening_diagram() {
    let premise = LK::Axiom(seqt(vec![pred("p", vec![])], vec![pred("p", vec![])]));
    let node = LK::WeakeningLeft(
        Box::new(premise),
        seqt(
            vec![pred("q", vec![]), pred("p", vec![])],
            vec![pred("p", vec![])],
        ),
    );
    let expected = " p \u{21d2}  p       \n----------(wL)\nq, p \u{21d2}  p     ";
    assert_eq!(expected, node.to_string());
}

#[test]
fn sequent_accessors() {
    let s = seqt(
        vec![pred("a", vec![]), pred("b", vec![])],
        vec![pred("c", vec![]), pred("d", vec![])],
    );
    assert_eq!(&pred("a", vec![]), s.ant_first());
    assert_eq!(&pred("d", vec![]), s.suc_last());
    assert_eq!(vec![pred("b", vec![])], s.ant_but_first());
    assert_eq!(vec![pred("c", vec![])], s.suc_but_last());
}

#[test]
fn render_cut_diagram() {
    let p = pred("p", vec![]);
    let q = pred("q", vec![]);
    let l = LK::Axiom(seqt(vec![], vec![p.clone()]));
    let r = LK::Axiom(seqt(vec![p], vec![q.clone()]));
    let node = LK::Cut(Box::new(l), Box::new(r), seqt(vec![], vec![q]));
    let expected = " \u{21d2}  p    p \u{21d2}  q      \n ---------------(Cut)\n      \u{21d2}  q           ";
    assert_eq!(expected, node.to_string());
}

#[test]
fn lk_last_returns_conclusion() {
    let premise = LK::Axiom(seqt(vec![pred("p", vec![])], vec![pred("p", vec![])]));
    let conclusion = seqt(
        vec![pred("q", vec![]), pred("p", vec![])],
        vec![pred("p", vec![])],
    );
    let node = LK::WeakeningLeft(Box::new(premise), conclusion.clone());
    assert_eq!(&conclusion, node.last());
}

#[test]
fn subformulas_of_sequent() {
    let p = pred("p", vec![]);
    let q = pred("q", vec![]);
    let conj = Formula::And(Box::new(p.clone()), Box::new(q.clone()));
    let s = seqt(vec![conj.clone()], vec![q.clone()]);
    let subs: HashSet<_> = s.get_subformulas().into_iter().collect();
    let mut gt = HashSet::new();
    gt.insert(conj);
    gt.insert(p);
    gt.insert(q);
    assert_eq!(gt, subs);
}

#[test]
fn subterms_of_term() {
    let inner = func("g", vec![var("y")]);
    let outer = func("f", vec![var("x"), inner.clone()]);
    let subs: HashSet<_> = outer.get_subterms().into_iter().collect();
    let mut gt = HashSet::new();
    gt.insert(outer.clone());
    gt.insert(var("x"));
    gt.insert(inner);
    gt.insert(var("y"));
    assert_eq!(gt, subs);
}

#[test]
fn substitutible_when_no_capture() {
    let phi = Formula::Forall(var("y"), Box::new(pred("p", vec![var("x")])));
    assert!(phi.is_substitutible(&var("x"), &var("z")));
    assert!(phi.is_substitutible(&var("x"), &func("f", vec![var("z")])));
}

#[test]
fn weakening_right_appends() {
    let p = pred("p", vec![]);
    let q = pred("q", vec![]);
    let premise = LK::Axiom(seqt(vec![p.clone()], vec![p.clone()]));
    let node = LK::WeakeningRight(
        Box::new(premise),
        seqt(vec![p.clone()], vec![p, q]),
    );
    assert!(node.is_valid_inference());
}

#[test]
fn contraction_right_merges() {
    let p = pred("p", vec![]);
    let premise = LK::Axiom(seqt(vec![p.clone()], vec![p.clone(), p.clone()]));
    let node = LK::ContractionRight(
        Box::new(premise),
        seqt(vec![p.clone()], vec![p]),
    );
    assert!(node.is_valid_inference());
}

#[test]
fn and_left_both_sides() {
    let p = pred("p", vec![]);
    let q = pred("q", vec![]);
    let conj = Formula::And(Box::new(p.clone()), Box::new(q.clone()));
    let s = pred("s", vec![]);
    let from_first = LK::AndLeft1(
        Box::new(LK::Axiom(seqt(vec![p.clone()], vec![s.clone()]))),
        seqt(vec![conj.clone()], vec![s.clone()]),
    );
    assert!(from_first.is_valid_inference());
    let from_second = LK::AndLeft2(
        Box::new(LK::Axiom(seqt(vec![q.clone()], vec![s.clone()]))),
        seqt(vec![conj.clone()], vec![s.clone()]),
    );
    assert!(from_second.is_valid_inference());
    // the premise must hold the conjunct its tag names
    let crossed = LK::AndLeft1(
        Box::new(LK::Axiom(seqt(vec![q], vec![s.clone()]))),
        seqt(vec![conj], vec![s]),
    );
    assert!(!crossed.is_valid_inference());
}

#[test]
fn or_right_both_sides() {
    let p = pred("p", vec![]);
    let q = pred("q", vec![]);
    let disj = Formula::Or(Box::new(p.clone()), Box::new(q.clone()));
    let from_first = LK::OrRight1(
        Box::new(LK::Axiom(seqt(vec![p.clone()], vec![p.clone()]))),
        seqt(vec![p.clone()], vec![disj.clone()]),
    );
    assert!(from_first.is_valid_inference());
    let from_second = LK::OrRight2(
        Box::new(LK::Axiom(seqt(vec![q.clone()], vec![q]))),
        seqt(vec![p], vec![disj]),
    );
    assert!(!from_second.is_valid_inference());
}

#[test]
fn or_left_splits() {
    let p = pred("p", vec![]);
    let q = pred("q", vec![]);
    let s = pred("s", vec![]);
    let disj = Formula::Or(Box::new(p.clone()), Box::new(q.clone()));
    let node = LK::OrLeft(
        Box::new(LK::Axiom(seqt(vec![p], vec![s.clone()]))),
        Box::new(LK::Axiom(seqt(vec![q], vec![s.clone()]))),
        seqt(vec![disj], vec![s]),
    );
    assert!(node.is_valid_inference());
}

#[test]
fn implies_left_splits_context() {
    let p = pred("p", vec![]);
    let q = pred("q", vec![]);
    let r = pred("r", vec![]);
    let node = LK::ImpliesLeft(
        Box::new(LK::Axiom(seqt(vec![], vec![p.clone()]))),
        Box::new(LK::Axiom(seqt(vec![q.clone()], vec![r.clone()]))),
        seqt(
            vec![Formula::Implies(Box::new(p), Box::new(q))],
            vec![r],
        ),
    );
    assert!(node.is_valid_inference());
}

#[test]
fn not_rules_move_across() {
    let p = pred("p", vec![]);
    let left = LK::NotLeft(
        Box::new(LK::Axiom(seqt(vec![], vec![p.clone()]))),
        seqt(vec![Formula::Not(Box::new(p.clone()))], vec![]),
    );
    assert!(left.is_valid_inference());
    let right = LK::NotRight(
        Box::new(LK::Axiom(seqt(vec![p.clone()], vec![]))),
        seqt(vec![], vec![Formula::Not(Box::new(p))]),
    );
    assert!(right.is_valid_inference());
}

#[test]
fn exists_rules() {
    // exists-right: p(c) in the succedent witnesses exists x. p(x)
    let phi = pred("p", vec![var("x")]);
    let inst = pred("p", vec![func("c", vec![])]);
    let witness_node = LK::ExistsRight(
        Box::new(LK::Axiom(seqt(vec![inst.clone()], vec![inst.clone()]))),
        seqt(
            vec![inst],
            vec![Formula::Exists(var("x"), Box::new(phi.clone()))],
        ),
    );
    assert!(witness_node.is_valid_inference());
    // exists-left: a fresh y eliminates the binder
    let fresh = pred("p", vec![var("y")]);
    let s = pred("s", vec![]);
    let eigen_node = LK::ExistsLeft(
        Box::new(LK::Axiom(seqt(vec![fresh], vec![s.clone()]))),
        seqt(
            vec![Formula::Exists(var("x"), Box::new(phi))],
            vec![s],
        ),
    );
    assert!(eigen_node.is_valid_inference());
}
