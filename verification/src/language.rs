//! Terms, formulas and surface-syntax tokens of first-order logic with
//! equality, their mathematical models, structural equality and cloning.

use vstd::prelude::*;

verus! {

/// A first-order term: a variable or a function application.
/// Function arity is the length of the argument list.
#[derive(Debug, Eq, Hash)]
pub enum Term {
    Var(String),
    Func(String, Vec<Term>),
}

/// The mathematical model of a [`Term`].
#[verifier::ext_equal]
pub enum SpecTerm {
    Var(Seq<char>),
    Func(Seq<char>, Seq<SpecTerm>),
}

/// A formula of first-order logic with equality. Connectives are
/// order-sensitive data: `And(a, b)` and `And(b, a)` are different values.
/// The first field of `Forall`/`Exists` is the bound variable.
#[derive(Debug, Eq, Hash)]
pub enum Formula {
    Pred(String, Vec<Term>),
    Equal(Term, Term),
    Not(Box<Formula>),
    And(Box<Formula>, Box<Formula>),
    Or(Box<Formula>, Box<Formula>),
    Implies(Box<Formula>, Box<Formula>),
    Forall(Term, Box<Formula>),
    Exists(Term, Box<Formula>),
}

/// The mathematical model of a [`Formula`].
#[verifier::ext_equal]
pub enum SpecFormula {
    Pred(Seq<char>, Seq<SpecTerm>),
    Equal(SpecTerm, SpecTerm),
    Not(Box<SpecFormula>),
    And(Box<SpecFormula>, Box<SpecFormula>),
    Or(Box<SpecFormula>, Box<SpecFormula>),
    Implies(Box<SpecFormula>, Box<SpecFormula>),
    Forall(SpecTerm, Box<SpecFormula>),
    Exists(SpecTerm, Box<SpecFormula>),
}

/// One token of the prefix S-expression surface syntax.
#[derive(Debug, Eq, Hash, Clone)]
pub enum Token {
    LParen,
    RParen,
    Not,
    And,
    Or,
    Implies,
    Equal,
    Forall,
    Exists,
    Symbol(String),
}

/// The mathematical model of a [`Token`].
pub enum SpecToken {
    LParen,
    RParen,
    Not,
    And,
    Or,
    Implies,
    Equal,
    Forall,
    Exists,
    Symbol(Seq<char>),
}

/// A function or predicate symbol together with its arity. A name used at
/// two arities is two distinct symbols.
#[derive(Debug, Eq, Hash)]
pub struct NonLogicalSymbol {
    pub name: String,
    pub arity: usize,
}

/// The mathematical model of a [`NonLogicalSymbol`].
#[verifier::ext_equal]
pub struct SpecSymbol {
    pub name: Seq<char>,
    pub arity: nat,
}

/// Model of a term, structurally.
pub open spec fn view_term(t: Term) -> SpecTerm
    decreases t,
{
    match t {
        Term::Var(name) => SpecTerm::Var(name@),
        Term::Func(name, args) => SpecTerm::Func(name@, view_terms(args@)),
    }
}

/// Model of a sequence of terms, elementwise.
pub open spec fn view_terms(ts: Seq<Term>) -> Seq<SpecTerm>
    decreases ts,
{
    if ts.len() == 0 {
        Seq::empty()
    } else {
        seq![view_term(ts[0])] + view_terms(ts.drop_first())
    }
}

/// Model of a formula, structurally.
pub open spec fn view_formula(f: Formula) -> SpecFormula
    decreases f,
{
    match f {
        Formula::Pred(name, args) => SpecFormula::Pred(name@, view_terms(args@)),
        Formula::Equal(lhs, rhs) => SpecFormula::Equal(view_term(lhs), view_term(rhs)),
        Formula::Not(g) => SpecFormula::Not(Box::new(view_formula(*g))),
        Formula::And(lhs, rhs) => SpecFormula::And(
            Box::new(view_formula(*lhs)),
            Box::new(view_formula(*rhs)),
        ),
        Formula::Or(lhs, rhs) => SpecFormula::Or(
            Box::new(view_formula(*lhs)),
            Box::new(view_formula(*rhs)),
        ),
        Formula::Implies(lhs, rhs) => SpecFormula::Implies(
            Box::new(view_formula(*lhs)),
            Box::new(view_formula(*rhs)),
        ),
        Formula::Forall(v, g) => SpecFormula::Forall(view_term(v), Box::new(view_formula(*g))),
        Formula::Exists(v, g) => SpecFormula::Exists(view_term(v), Box::new(view_formula(*g))),
    }
}

/// Model of a sequence of formulas, elementwise.
pub open spec fn view_formulas(fs: Seq<Formula>) -> Seq<SpecFormula>
    decreases fs,
{
    if fs.len() == 0 {
        Seq::empty()
    } else {
        seq![view_formula(fs[0])] + view_formulas(fs.drop_first())
    }
}

impl View for Term {
    type V = SpecTerm;

    open spec fn view(&self) -> SpecTerm {
        view_term(*self)
    }
}

impl View for Formula {
    type V = SpecFormula;

    open spec fn view(&self) -> SpecFormula {
        view_formula(*self)
    }
}

impl View for Token {
    type V = SpecToken;

    open spec fn view(&self) -> SpecToken {
        match *self {
            Token::LParen => SpecToken::LParen,
            Token::RParen => SpecToken::RParen,
            Token::Not => SpecToken::Not,
            Token::And => SpecToken::And,
            Token::Or => SpecToken::Or,
            Token::Implies => SpecToken::Implies,
            Token::Equal => SpecToken::Equal,
            Token::Forall => SpecToken::Forall,
            Token::Exists => SpecToken::Exists,
            Token::Symbol(s) => SpecToken::Symbol(s@),
        }
    }
}

impl View for NonLogicalSymbol {
    type V = SpecSymbol;

    open spec fn view(&self) -> SpecSymbol {
        SpecSymbol { name: self.name@, arity: self.arity as nat }
    }
}

/// Model of a sequence of symbols, elementwise.
pub open spec fn view_symbols(ss: Seq<NonLogicalSymbol>) -> Seq<SpecSymbol>
    decreases ss,
{
    if ss.len() == 0 {
        Seq::empty()
    } else {
        seq![ss[0]@] + view_symbols(ss.drop_first())
    }
}

/// `view_symbols` maps the view over the sequence.
pub proof fn lemma_view_symbols(ss: Seq<NonLogicalSymbol>)
    ensures
        view_symbols(ss).len() == ss.len(),
        forall|i: int| 0 <= i < ss.len() ==> view_symbols(ss)[i] == ss[i]@,
    decreases ss,
{
    if ss.len() > 0 {
        lemma_view_symbols(ss.drop_first());
    }
}

/// `view_terms` maps `view_term` over the sequence.
pub proof fn lemma_view_terms(ts: Seq<Term>)
    ensures
        view_terms(ts).len() == ts.len(),
        forall|i: int| 0 <= i < ts.len() ==> view_terms(ts)[i] == view_term(ts[i]),
    decreases ts,
{
    if ts.len() > 0 {
        lemma_view_terms(ts.drop_first());
    }
}

/// `view_formulas` maps `view_formula` over the sequence.
pub proof fn lemma_view_formulas(fs: Seq<Formula>)
    ensures
        view_formulas(fs).len() == fs.len(),
        forall|i: int| 0 <= i < fs.len() ==> view_formulas(fs)[i] == view_formula(fs[i]),
    decreases fs,
{
    if fs.len() > 0 {
        lemma_view_formulas(fs.drop_first());
    }
}

/// Structural equality of two term vectors, positionally.
pub fn terms_eq(xs: &Vec<Term>, ys: &Vec<Term>) -> (r: bool)
    ensures
        r == (view_terms(xs@) == view_terms(ys@)),
    decreases *xs,
{
    proof {
        lemma_view_terms(xs@);
        lemma_view_terms(ys@);
    }
    if xs.len() != ys.len() {
        return false;
    }
    for i in 0..xs.len()
        invariant
            xs.len() == ys.len(),
            forall|j: int| 0 <= j < i ==> view_terms(xs@)[j] == view_terms(ys@)[j],
            view_terms(xs@).len() == xs@.len(),
            view_terms(ys@).len() == ys@.len(),
            forall|j: int| 0 <= j < xs@.len() ==> view_terms(xs@)[j] == view_term(xs@[j]),
            forall|j: int| 0 <= j < ys@.len() ==> view_terms(ys@)[j] == view_term(ys@[j]),
    {
        proof {
            assert(decreases_to!(*xs => xs@));
            assert(decreases_to!(xs@ => xs@[i as int]));
        }
        if !xs[i].term_eq(&ys[i]) {
            proof {
                assert(view_terms(xs@)[i as int] != view_terms(ys@)[i as int]);
            }
            return false;
        }
    }
    proof {
        assert(view_terms(xs@) =~= view_terms(ys@));
    }
    true
}

impl Term {
    /// Structural equality of terms: same variant, and name and all
    /// arguments equal, positionally.
    pub fn term_eq(&self, other: &Term) -> (r: bool)
        ensures
            r == (self@ == other@),
        decreases self,
    {
        match (self, other) {
            (Term::Var(a), Term::Var(b)) => a.eq(b),
            (Term::Func(a, xs), Term::Func(b, ys)) => {
                proof {
                    assert(decreases_to!(*self => (*self)->Func_1));
                }
                let names = a.eq(b);
                let args = terms_eq(xs, ys);
                names && args
            },
            (Term::Var(_), Term::Func(_, _)) => false,
            (Term::Func(_, _), Term::Var(_)) => false,
        }
    }
}

impl Formula {
    /// Structural equality of formulas: same variant and recursively equal
    /// fields.
    pub fn fml_eq(&self, other: &Formula) -> (r: bool)
        ensures
            r == (self@ == other@),
        decreases self,
    {
        match (self, other) {
            (Formula::Pred(a, xs), Formula::Pred(b, ys)) => {
                let names = a.eq(b);
                let args = terms_eq(xs, ys);
                names && args
            },
            (Formula::Equal(l1, r1), Formula::Equal(l2, r2)) => {
                let ls = l1.term_eq(l2);
                let rs = r1.term_eq(r2);
                ls && rs
            },
            (Formula::Not(x), Formula::Not(y)) => x.fml_eq(y),
            (Formula::And(l1, r1), Formula::And(l2, r2)) => {
                let ls = l1.fml_eq(l2);
                let rs = r1.fml_eq(r2);
                ls && rs
            },
            (Formula::Or(l1, r1), Formula::Or(l2, r2)) => {
                let ls = l1.fml_eq(l2);
                let rs = r1.fml_eq(r2);
                ls && rs
            },
            (Formula::Implies(l1, r1), Formula::Implies(l2, r2)) => {
                let ls = l1.fml_eq(l2);
                let rs = r1.fml_eq(r2);
                ls && rs
            },
            (Formula::Forall(v1, g1), Formula::Forall(v2, g2)) => {
                let vs = v1.term_eq(v2);
                let gs = g1.fml_eq(g2);
                vs && gs
            },
            (Formula::Exists(v1, g1), Formula::Exists(v2, g2)) => {
                let vs = v1.term_eq(v2);
                let gs = g1.fml_eq(g2);
                vs && gs
            },
            _ => false,
        }
    }
}

impl Token {
    /// Equality of tokens: same variant, and equal symbol text.
    pub fn token_eq(&self, other: &Token) -> (r: bool)
        ensures
            r == (self@ == other@),
    {
        match (self, other) {
            (Token::LParen, Token::LParen) => true,
            (Token::RParen, Token::RParen) => true,
            (Token::Not, Token::Not) => true,
            (Token::And, Token::And) => true,
            (Token::Or, Token::Or) => true,
            (Token::Implies, Token::Implies) => true,
            (Token::Equal, Token::Equal) => true,
            (Token::Forall, Token::Forall) => true,
            (Token::Exists, Token::Exists) => true,
            (Token::Symbol(a), Token::Symbol(b)) => a.eq(b),
            _ => false,
        }
    }
}

impl PartialEq for Term {
    fn eq(&self, other: &Term) -> (r: bool) {
        self.term_eq(other)
    }
}

impl vstd::std_specs::cmp::PartialEqSpecImpl for Term {
    open spec fn obeys_eq_spec() -> bool {
        true
    }

    open spec fn eq_spec(&self, other: &Term) -> bool {
        self@ == other@
    }
}

impl PartialEq for Formula {
    fn eq(&self, other: &Formula) -> (r: bool) {
        self.fml_eq(other)
    }
}

impl vstd::std_specs::cmp::PartialEqSpecImpl for Formula {
    open spec fn obeys_eq_spec() -> bool {
        true
    }

    open spec fn eq_spec(&self, other: &Formula) -> bool {
        self@ == other@
    }
}

impl PartialEq for Token {
    fn eq(&self, other: &Token) -> (r: bool) {
        self.token_eq(other)
    }
}

impl vstd::std_specs::cmp::PartialEqSpecImpl for Token {
    open spec fn obeys_eq_spec() -> bool {
        true
    }

    open spec fn eq_spec(&self, other: &Token) -> bool {
        self@ == other@
    }
}

impl PartialEq for NonLogicalSymbol {
    fn eq(&self, other: &NonLogicalSymbol) -> (r: bool) {
        let names = self.name.eq(&other.name);
        names && self.arity == other.arity
    }
}

impl vstd::std_specs::cmp::PartialEqSpecImpl for NonLogicalSymbol {
    open spec fn obeys_eq_spec() -> bool {
        true
    }

    open spec fn eq_spec(&self, other: &NonLogicalSymbol) -> bool {
        self@ == other@
    }
}

/// Deep copy of a term vector, preserving the model of every element.
pub fn clone_terms(xs: &Vec<Term>) -> (r: Vec<Term>)
    ensures
        view_terms(r@) == view_terms(xs@),
    decreases *xs,
{
    proof {
        lemma_view_terms(xs@);
    }
    let mut out: Vec<Term> = Vec::new();
    for i in 0..xs.len()
        invariant
            out@.len() == i,
            forall|j: int| 0 <= j < i ==> view_term(out@[j]) == view_term(xs@[j]),
            view_terms(xs@).len() == xs@.len(),
            forall|j: int| 0 <= j < xs@.len() ==> view_terms(xs@)[j] == view_term(xs@[j]),
    {
        proof {
            assert(decreases_to!(*xs => xs@));
            assert(decreases_to!(xs@ => xs@[i as int]));
        }
        out.push(xs[i].clone());
    }
    proof {
        lemma_view_terms(out@);
        assert(view_terms(out@) =~= view_terms(xs@));
    }
    out
}

impl Clone for Term {
    /// Deep copy with the same model.
    fn clone(&self) -> (r: Term)
        ensures
            r@ == self@,
        decreases self,
    {
        match self {
            Term::Var(name) => Term::Var(name.clone()),
            Term::Func(name, args) => {
                proof {
                    assert(decreases_to!(*self => (*self)->Func_1));
                }
                Term::Func(name.clone(), clone_terms(args))
            },
        }
    }
}

impl Clone for Formula {
    /// Deep copy with the same model.
    fn clone(&self) -> (r: Formula)
        ensures
            r@ == self@,
        decreases self,
    {
        match self {
            Formula::Pred(name, args) => Formula::Pred(name.clone(), clone_terms(args)),
            Formula::Equal(lhs, rhs) => Formula::Equal(lhs.clone(), rhs.clone()),
            Formula::Not(g) => Formula::Not(Box::new((**g).clone())),
            Formula::And(lhs, rhs) => Formula::And(
                Box::new((**lhs).clone()),
                Box::new((**rhs).clone()),
            ),
            Formula::Or(lhs, rhs) => Formula::Or(
                Box::new((**lhs).clone()),
                Box::new((**rhs).clone()),
            ),
            Formula::Implies(lhs, rhs) => Formula::Implies(
                Box::new((**lhs).clone()),
                Box::new((**rhs).clone()),
            ),
            Formula::Forall(v, g) => Formula::Forall(v.clone(), Box::new((**g).clone())),
            Formula::Exists(v, g) => Formula::Exists(v.clone(), Box::new((**g).clone())),
        }
    }
}

impl Clone for NonLogicalSymbol {
    /// Copy with the same model.
    fn clone(&self) -> (r: NonLogicalSymbol)
        ensures
            r@ == self@,
    {
        NonLogicalSymbol { name: self.name.clone(), arity: self.arity }
    }
}

} // verus!
