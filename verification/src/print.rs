//! Canonical prefix-notation text for terms, formulas and sequents.

use vstd::prelude::*;
use crate::language::Term;
use crate::language::Formula;
use crate::language::SpecTerm;
use crate::language::SpecFormula;
use crate::language::view_term;
use crate::language::view_terms;
use crate::language::view_formula;
use crate::language::view_formulas;
use crate::language::lemma_view_terms;
use crate::language::lemma_view_formulas;
use crate::sequent::Sequent;
use crate::sequent::SpecSequent;

verus! {

/// Canonical text of a term: a variable is its name, an application is
/// `(name arg ...)`.
pub open spec fn spec_print_term(t: SpecTerm) -> Seq<char>
    decreases t,
{
    match t {
        SpecTerm::Var(name) => name,
        SpecTerm::Func(name, args) => seq!['('] + name + spec_print_args(args) + seq![')'],
    }
}

/// Canonical text of an argument list: one space before each argument.
pub open spec fn spec_print_args(ts: Seq<SpecTerm>) -> Seq<char>
    decreases ts,
{
    if ts.len() == 0 {
        Seq::empty()
    } else {
        seq![' '] + spec_print_term(ts[0]) + spec_print_args(ts.drop_first())
    }
}

/// Canonical text of a formula in the prefix surface syntax.
pub open spec fn spec_print_formula(f: SpecFormula) -> Seq<char>
    decreases f,
{
    match f {
        SpecFormula::Pred(name, args) => if args.len() == 0 {
            name
        } else {
            seq!['('] + name + spec_print_args(args) + seq![')']
        },
        SpecFormula::Equal(lhs, rhs) => seq!['(', '=', ' '] + spec_print_term(lhs) + seq![' ']
            + spec_print_term(rhs) + seq![')'],
        SpecFormula::Not(g) => seq!['(', '~', ' '] + spec_print_formula(*g) + seq![')'],
        SpecFormula::And(lhs, rhs) => seq!['(', '^', ' '] + spec_print_formula(*lhs) + seq![' ']
            + spec_print_formula(*rhs) + seq![')'],
        SpecFormula::Or(lhs, rhs) => seq!['(', 'v', ' '] + spec_print_formula(*lhs) + seq![' ']
            + spec_print_formula(*rhs) + seq![')'],
        SpecFormula::Implies(lhs, rhs) => seq!['(', '>', ' '] + spec_print_formula(*lhs)
            + seq![' '] + spec_print_formula(*rhs) + seq![')'],
        SpecFormula::Forall(v, g) => seq!['(', 'V'] + spec_print_term(v) + seq![' ']
            + spec_print_formula(*g) + seq![')'],
        SpecFormula::Exists(v, g) => seq!['(', 'E'] + spec_print_term(v) + seq![' ']
            + spec_print_formula(*g) + seq![')'],
    }
}

/// The formulas of one side of a sequent, separated by `", "`.
pub open spec fn spec_print_side(fs: Seq<SpecFormula>) -> Seq<char>
    decreases fs,
{
    if fs.len() == 0 {
        Seq::empty()
    } else if fs.len() == 1 {
        spec_print_formula(fs[0])
    } else {
        spec_print_formula(fs[0]) + seq![',', ' '] + spec_print_side(fs.drop_first())
    }
}

/// The one-line text of a sequent: antecedent, entailment arrow, succedent.
pub open spec fn spec_print_sequent(s: SpecSequent) -> Seq<char> {
    spec_print_side(s.antecedent) + seq![' ', '\u{21d2}', ' ', ' '] + spec_print_side(s.succedent)
}

/// Splitting off the head of the remaining suffix, for [`spec_print_args`].
pub proof fn lemma_print_args_skip(ts: Seq<SpecTerm>, i: int)
    requires
        0 <= i < ts.len(),
    ensures
        spec_print_args(ts.skip(i)) == seq![' '] + spec_print_term(ts[i]) + spec_print_args(
            ts.skip(i + 1),
        ),
{
    assert(ts.skip(i).drop_first() =~= ts.skip(i + 1));
    assert(ts.skip(i)[0] == ts[i]);
}

/// Text of the argument list of an application.
pub(crate) fn print_args(xs: &Vec<Term>) -> (r: String)
    ensures
        r@ == spec_print_args(view_terms(xs@)),
    decreases *xs,
{
    let ghost vxs = view_terms(xs@);
    proof {
        lemma_view_terms(xs@);
    }
    let mut out = String::new();
    proof {
        assert(vxs.skip(0) =~= vxs);
        assert(out@ + spec_print_args(vxs.skip(0)) =~= spec_print_args(vxs));
    }
    for i in 0..xs.len()
        invariant
            out@ + spec_print_args(vxs.skip(i as int)) == spec_print_args(vxs),
            vxs == view_terms(xs@),
            vxs.len() == xs@.len(),
            forall|j: int| 0 <= j < xs@.len() ==> vxs[j] == view_term(xs@[j]),
    {
        proof {
            assert(decreases_to!(*xs => xs@));
            assert(decreases_to!(xs@ => xs@[i as int]));
        }
        out.append(" ");
        let arg = xs[i].to_string();
        out.append(arg.as_str());
        proof {
            reveal_strlit(" ");
            lemma_print_args_skip(vxs, i as int);
            assert(out@ + spec_print_args(vxs.skip(i + 1)) =~= spec_print_args(vxs));
        }
    }
    proof {
        assert(vxs.skip(xs@.len() as int) =~= Seq::<SpecTerm>::empty());
        assert(out@ + spec_print_args(vxs.skip(xs@.len() as int)) =~= out@);
    }
    out
}

impl Term {
    /// The canonical text of this term.
    pub fn to_string(&self) -> (r: String)
        ensures
            r@ == spec_print_term(self@),
        decreases self,
    {
        match self {
            Term::Var(name) => name.clone(),
            Term::Func(name, args) => {
                proof {
                    assert(decreases_to!(*self => (*self)->Func_1));
                }
                let mut out = String::new();
                out.append("(");
                out.append(name.as_str());
                let argstr = print_args(args);
                out.append(argstr.as_str());
                out.append(")");
                proof {
                    reveal_strlit("(");
                    reveal_strlit(")");
                    assert(out@ =~= spec_print_term(self@));
                }
                out
            },
        }
    }
}

impl Formula {
    /// The canonical text of this formula in the prefix surface syntax.
    pub fn to_string(&self) -> (r: String)
        ensures
            r@ == spec_print_formula(self@),
        decreases self,
    {
        match self {
            Formula::Pred(name, args) => {
                if args.len() == 0 {
                    proof {
                        lemma_view_terms(args@);
                    }
                    name.clone()
                } else {
                    proof {
                        lemma_view_terms(args@);
                    }
                    let mut out = String::new();
                    out.append("(");
                    out.append(name.as_str());
                    let argstr = print_args(args);
                    out.append(argstr.as_str());
                    out.append(")");
                    proof {
                        reveal_strlit("(");
                        reveal_strlit(")");
                        assert(out@ =~= spec_print_formula(self@));
                    }
                    out
                }
            },
            Formula::Equal(lhs, rhs) => {
                let mut out = String::new();
                out.append("(= ");
                let ls = lhs.to_string();
                out.append(ls.as_str());
                out.append(" ");
                let rs = rhs.to_string();
                out.append(rs.as_str());
                out.append(")");
                proof {
                    reveal_strlit("(= ");
                    reveal_strlit(" ");
                    reveal_strlit(")");
                    assert(out@ =~= spec_print_formula(self@));
                }
                out
            },
            Formula::Not(g) => {
                let mut out = String::new();
                out.append("(~ ");
                let gs = g.to_string();
                out.append(gs.as_str());
                out.append(")");
                proof {
                    reveal_strlit("(~ ");
                    reveal_strlit(")");
                    assert(out@ =~= spec_print_formula(self@));
                }
                out
            },
            Formula::And(lhs, rhs) => {
                let mut out = String::new();
                out.append("(^ ");
                let ls = lhs.to_string();
                out.append(ls.as_str());
                out.append(" ");
                let rs = rhs.to_string();
                out.append(rs.as_str());
                out.append(")");
                proof {
                    reveal_strlit("(^ ");
                    reveal_strlit(" ");
                    reveal_strlit(")");
                    assert(out@ =~= spec_print_formula(self@));
                }
                out
            },
            Formula::Or(lhs, rhs) => {
                let mut out = String::new();
                out.append("(v ");
                let ls = lhs.to_string();
                out.append(ls.as_str());
                out.append(" ");
                let rs = rhs.to_string();
                out.append(rs.as_str());
                out.append(")");
                proof {
                    reveal_strlit("(v ");
                    reveal_strlit(" ");
                    reveal_strlit(")");
                    assert(out@ =~= spec_print_formula(self@));
                }
                out
            },
            Formula::Implies(lhs, rhs) => {
                let mut out = String::new();
                out.append("(> ");
                let ls = lhs.to_string();
                out.append(ls.as_str());
                out.append(" ");
                let rs = rhs.to_string();
                out.append(rs.as_str());
                out.append(")");
                proof {
                    reveal_strlit("(> ");
                    reveal_strlit(" ");
                    reveal_strlit(")");
                    assert(out@ =~= spec_print_formula(self@));
                }
                out
            },
            Formula::Forall(v, g) => {
                let mut out = String::new();
                out.append("(V");
                let vs = v.to_string();
                out.append(vs.as_str());
                out.append(" ");
                let gs = g.to_string();
                out.append(gs.as_str());
                out.append(")");
                proof {
                    reveal_strlit("(V");
                    reveal_strlit(" ");
                    reveal_strlit(")");
                    assert(out@ =~= spec_print_formula(self@));
                }
                out
            },
            Formula::Exists(v, g) => {
                let mut out = String::new();
                out.append("(E");
                let vs = v.to_string();
                out.append(vs.as_str());
                out.append(" ");
                let gs = g.to_string();
                out.append(gs.as_str());
                out.append(")");
                proof {
                    reveal_strlit("(E");
                    reveal_strlit(" ");
                    reveal_strlit(")");
                    assert(out@ =~= spec_print_formula(self@));
                }
                out
            },
        }
    }
}

/// Splitting off the head of the remaining suffix, for [`spec_print_side`],
/// in the case where more formulas follow.
pub proof fn lemma_print_side_skip(fs: Seq<SpecFormula>, i: int)
    requires
        0 <= i < fs.len() - 1,
    ensures
        spec_print_side(fs.skip(i)) == spec_print_formula(fs[i]) + seq![',', ' ']
            + spec_print_side(fs.skip(i + 1)),
{
    assert(fs.skip(i).drop_first() =~= fs.skip(i + 1));
    assert(fs.skip(i)[0] == fs[i]);
    assert(fs.skip(i).len() == fs.len() - i);
}

/// Text of one side of a sequent, formulas separated by `", "`.
fn print_side(xs: &Vec<Formula>) -> (r: String)
    ensures
        r@ == spec_print_side(view_formulas(xs@)),
{
    let ghost vxs = view_formulas(xs@);
    proof {
        lemma_view_formulas(xs@);
    }
    let mut out = String::new();
    proof {
        assert(vxs.skip(0) =~= vxs);
        assert(out@ + spec_print_side(vxs.skip(0)) =~= spec_print_side(vxs));
    }
    for i in 0..xs.len()
        invariant
            out@ + spec_print_side(vxs.skip(i as int)) == spec_print_side(vxs),
            vxs == view_formulas(xs@),
            vxs.len() == xs@.len(),
            forall|j: int| 0 <= j < xs@.len() ==> vxs[j] == view_formula(xs@[j]),
    {
        let fstr = xs[i].to_string();
        out.append(fstr.as_str());
        if i + 1 < xs.len() {
            out.append(", ");
            proof {
                reveal_strlit(", ");
                lemma_print_side_skip(vxs, i as int);
                assert(out@ + spec_print_side(vxs.skip(i + 1)) =~= spec_print_side(vxs));
            }
        } else {
            proof {
                assert(vxs.skip(i as int).len() == 1);
                assert(vxs.skip(i as int)[0] == vxs[i as int]);
                assert(vxs.skip(i + 1) =~= Seq::<SpecFormula>::empty());
                assert(out@ + spec_print_side(vxs.skip(i + 1)) =~= spec_print_side(vxs));
            }
        }
    }
    proof {
        assert(vxs.skip(xs@.len() as int) =~= Seq::<SpecFormula>::empty());
        assert(out@ + spec_print_side(vxs.skip(xs@.len() as int)) =~= out@);
    }
    out
}

impl Sequent {
    /// The one-line text of this sequent.
    pub fn to_string(&self) -> (r: String)
        ensures
            r@ == spec_print_sequent(self@),
    {
        let mut out = print_side(&self.antecedent);
        out.append(" \u{21d2}  ");
        let suc = print_side(&self.succedent);
        out.append(suc.as_str());
        proof {
            reveal_strlit(" \u{21d2}  ");
            assert(out@ =~= spec_print_sequent(self@));
        }
        out
    }
}

} // verus!
