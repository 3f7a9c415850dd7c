//! The recursive-descent parser from token sequences to formulas.

use vstd::prelude::*;
use crate::language::Token;
use crate::language::SpecToken;
use crate::language::Term;
use crate::language::Formula;
use crate::language::SpecTerm;
use crate::language::SpecFormula;
use crate::language::view_terms;
use crate::language::lemma_view_terms;
use crate::tokenizer::view_tokens;
use crate::tokenizer::lemma_view_tokens;

verus! {

/// Parses one term at position `i`: a symbol is a variable, and
/// `( name term* )` is a function application.
pub open spec fn spec_parse_term(t: Seq<SpecToken>, i: int) -> Option<(SpecTerm, int)>
    decreases t.len() - i, 0int,
{
    if i < 0 || i >= t.len() {
        None
    } else {
        match t[i] {
            SpecToken::Symbol(n) => Some((SpecTerm::Var(n), i + 1)),
            SpecToken::LParen => if i + 1 < t.len() {
                match t[i + 1] {
                    SpecToken::Symbol(n) => match spec_parse_term_list(t, i + 2) {
                        Some((args, j)) => if j < t.len() && t[j] is RParen {
                            Some((SpecTerm::Func(n, args), j + 1))
                        } else {
                            None
                        },
                        None => None,
                    },
                    _ => None,
                }
            } else {
                None
            },
            _ => None,
        }
    }
}

/// Parses terms until a closing parenthesis, which is not consumed.
pub open spec fn spec_parse_term_list(t: Seq<SpecToken>, i: int) -> Option<(Seq<SpecTerm>, int)>
    decreases t.len() - i, 1int,
{
    if i < 0 || i >= t.len() {
        None
    } else if t[i] is RParen {
        Some((Seq::empty(), i))
    } else {
        match spec_parse_term(t, i) {
            Some((tm, j)) => if i < j && j <= t.len() {
                match spec_parse_term_list(t, j) {
                    Some((rest, k)) => Some((seq![tm] + rest, k)),
                    None => None,
                }
            } else {
                None
            },
            None => None,
        }
    }
}

/// Parses one formula at position `i`: a bare symbol is a nullary
/// predicate; a parenthesized form is a connective, a quantifier, an
/// equation, or a predicate application.
pub open spec fn spec_parse_formula(t: Seq<SpecToken>, i: int) -> Option<(SpecFormula, int)>
    decreases t.len() - i, 2int,
{
    if i < 0 || i >= t.len() {
        None
    } else {
        match t[i] {
            SpecToken::Symbol(n) => Some((SpecFormula::Pred(n, Seq::empty()), i + 1)),
            SpecToken::LParen => if i + 1 < t.len() {
                match t[i + 1] {
                    SpecToken::Not => match spec_parse_formula(t, i + 2) {
                        Some((g, j)) => if j < t.len() && t[j] is RParen {
                            Some((SpecFormula::Not(Box::new(g)), j + 1))
                        } else {
                            None
                        },
                        None => None,
                    },
                    SpecToken::And => match spec_parse_formula(t, i + 2) {
                        Some((f1, j)) => if i + 2 < j && j <= t.len() {
                            match spec_parse_formula(t, j) {
                                Some((f2, k)) => if k < t.len() && t[k] is RParen {
                                    Some(
                                        (
                                            SpecFormula::And(Box::new(f1), Box::new(f2)),
                                            k + 1,
                                        ),
                                    )
                                } else {
                                    None
                                },
                                None => None,
                            }
                        } else {
                            None
                        },
                        None => None,
                    },
                    SpecToken::Or => match spec_parse_formula(t, i + 2) {
                        Some((f1, j)) => if i + 2 < j && j <= t.len() {
                            match spec_parse_formula(t, j) {
                                Some((f2, k)) => if k < t.len() && t[k] is RParen {
                                    Some(
                                        (SpecFormula::Or(Box::new(f1), Box::new(f2)), k + 1),
                                    )
                                } else {
                                    None
                                },
                                None => None,
                            }
                        } else {
                            None
                        },
                        None => None,
                    },
                    SpecToken::Implies => match spec_parse_formula(t, i + 2) {
                        Some((f1, j)) => if i + 2 < j && j <= t.len() {
                            match spec_parse_formula(t, j) {
                                Some((f2, k)) => if k < t.len() && t[k] is RParen {
                                    Some(
                                        (
                                            SpecFormula::Implies(Box::new(f1), Box::new(f2)),
                                            k + 1,
                                        ),
                                    )
                                } else {
                                    None
                                },
                                None => None,
                            }
                        } else {
                            None
                        },
                        None => None,
                    },
                    SpecToken::Equal => match spec_parse_term(t, i + 2) {
                        Some((t1, j)) => if i + 2 < j && j <= t.len() {
                            match spec_parse_term(t, j) {
                                Some((t2, k)) => if k < t.len() && t[k] is RParen {
                                    Some((SpecFormula::Equal(t1, t2), k + 1))
                                } else {
                                    None
                                },
                                None => None,
                            }
                        } else {
                            None
                        },
                        None => None,
                    },
                    SpecToken::Forall => if i + 2 < t.len() {
                        match t[i + 2] {
                            SpecToken::Symbol(n) => match spec_parse_formula(t, i + 3) {
                                Some((g, j)) => if j < t.len() && t[j] is RParen {
                                    Some(
                                        (
                                            SpecFormula::Forall(
                                                SpecTerm::Var(n),
                                                Box::new(g),
                                            ),
                                            j + 1,
                                        ),
                                    )
                                } else {
                                    None
                                },
                                None => None,
                            },
                            _ => None,
                        }
                    } else {
                        None
                    },
                    SpecToken::Exists => if i + 2 < t.len() {
                        match t[i + 2] {
                            SpecToken::Symbol(n) => match spec_parse_formula(t, i + 3) {
                                Some((g, j)) => if j < t.len() && t[j] is RParen {
                                    Some(
                                        (
                                            SpecFormula::Exists(
                                                SpecTerm::Var(n),
                                                Box::new(g),
                                            ),
                                            j + 1,
                                        ),
                                    )
                                } else {
                                    None
                                },
                                None => None,
                            },
                            _ => None,
                        }
                    } else {
                        None
                    },
                    SpecToken::Symbol(n) => match spec_parse_term_list(t, i + 2) {
                        Some((args, j)) => if j < t.len() && t[j] is RParen {
                            Some((SpecFormula::Pred(n, args), j + 1))
                        } else {
                            None
                        },
                        None => None,
                    },
                    _ => None,
                }
            } else {
                None
            },
            _ => None,
        }
    }
}

/// A successful term parse advances and stays within the tokens.
pub proof fn lemma_parse_term_bounds(t: Seq<SpecToken>, i: int)
    ensures
        spec_parse_term(t, i) matches Some((x, j)) ==> i < j <= t.len(),
    decreases t.len() - i, 0int,
{
    if 0 <= i < t.len() {
        if t[i] is LParen && i + 1 < t.len() && t[i + 1] is Symbol {
            lemma_parse_term_list_bounds(t, i + 2);
        }
    }
}

/// A successful term-list parse ends on the closing parenthesis.
pub proof fn lemma_parse_term_list_bounds(t: Seq<SpecToken>, i: int)
    ensures
        spec_parse_term_list(t, i) matches Some((xs, j)) ==> i <= j < t.len() && t[j] is RParen,
    decreases t.len() - i, 1int,
{
    if 0 <= i < t.len() && !(t[i] is RParen) {
        lemma_parse_term_bounds(t, i);
        match spec_parse_term(t, i) {
            Some((tm, j)) => {
                if i < j && j <= t.len() {
                    lemma_parse_term_list_bounds(t, j);
                }
            },
            None => {},
        }
    }
}

/// A successful formula parse advances and stays within the tokens.
pub proof fn lemma_parse_formula_bounds(t: Seq<SpecToken>, i: int)
    ensures
        spec_parse_formula(t, i) matches Some((x, j)) ==> i < j <= t.len(),
    decreases t.len() - i, 2int,
{
    if 0 <= i < t.len() && t[i] is LParen && i + 1 < t.len() {
        match t[i + 1] {
            SpecToken::Not => {
                lemma_parse_formula_bounds(t, i + 2);
            },
            SpecToken::And => {
                lemma_parse_formula_bounds(t, i + 2);
                match spec_parse_formula(t, i + 2) {
                    Some((f1, j)) => {
                        if i + 2 < j && j <= t.len() {
                            lemma_parse_formula_bounds(t, j);
                        }
                    },
                    None => {},
                }
            },
            SpecToken::Or => {
                lemma_parse_formula_bounds(t, i + 2);
                match spec_parse_formula(t, i + 2) {
                    Some((f1, j)) => {
                        if i + 2 < j && j <= t.len() {
                            lemma_parse_formula_bounds(t, j);
                        }
                    },
                    None => {},
                }
            },
            SpecToken::Implies => {
                lemma_parse_formula_bounds(t, i + 2);
                match spec_parse_formula(t, i + 2) {
                    Some((f1, j)) => {
                        if i + 2 < j && j <= t.len() {
                            lemma_parse_formula_bounds(t, j);
                        }
                    },
                    None => {},
                }
            },
            SpecToken::Equal => {
                lemma_parse_term_bounds(t, i + 2);
                match spec_parse_term(t, i + 2) {
                    Some((t1, j)) => {
                        if i + 2 < j && j <= t.len() {
                            lemma_parse_term_bounds(t, j);
                        }
                    },
                    None => {},
                }
            },
            SpecToken::Forall => {
                if i + 2 < t.len() {
                    lemma_parse_formula_bounds(t, i + 3);
                }
            },
            SpecToken::Exists => {
                if i + 2 < t.len() {
                    lemma_parse_formula_bounds(t, i + 3);
                }
            },
            SpecToken::Symbol(n) => {
                lemma_parse_term_list_bounds(t, i + 2);
            },
            _ => {},
        }
    }
}

} // verus!

verus! {

/// The error a failed parse reports. No partial formula is returned.
#[derive(Debug, Clone, PartialEq, Eq, Structural)]
pub struct ParseError;

/// Parses one term at position `i`.
fn parse_term(t: &Vec<Token>, i: usize) -> (r: Option<(Term, usize)>)
    ensures
        ({
            let vt = view_tokens(t@);
            match r {
                Some((x, j)) => spec_parse_term(vt, i as int) == Some((x@, j as int)),
                None => spec_parse_term(vt, i as int) is None,
            }
        }),
    decreases t@.len() - i, 0int,
{
    let ghost vt = view_tokens(t@);
    proof {
        lemma_view_tokens(t@);
    }
    if i >= t.len() {
        return None;
    }
    match &t[i] {
        Token::Symbol(n) => Some((Term::Var(n.clone()), i + 1)),
        Token::LParen => {
            if i + 1 < t.len() {
                match &t[i + 1] {
                    Token::Symbol(n) => {
                        match parse_term_list(t, i + 2) {
                            Some((args, j)) => {
                                proof {
                                    lemma_parse_term_list_bounds(vt, i + 2);
                                }
                                if j >= t.len() {
                                    return None;
                                }
                                match &t[j] {
                                    Token::RParen => Some((Term::Func(n.clone(), args), j + 1)),
                                    _ => None,
                                }
                            },
                            None => None,
                        }
                    },
                    _ => None,
                }
            } else {
                None
            }
        },
        _ => None,
    }
}

/// Parses terms until a closing parenthesis, which is not consumed.
fn parse_term_list(t: &Vec<Token>, i: usize) -> (r: Option<(Vec<Term>, usize)>)
    ensures
        ({
            let vt = view_tokens(t@);
            match r {
                Some((xs, j)) => spec_parse_term_list(vt, i as int) == Some(
                    (view_terms(xs@), j as int),
                ),
                None => spec_parse_term_list(vt, i as int) is None,
            }
        }),
    decreases t@.len() - i, 1int,
{
    let ghost vt = view_tokens(t@);
    proof {
        lemma_view_tokens(t@);
    }
    if i >= t.len() {
        return None;
    }
    match &t[i] {
        Token::RParen => {
            let out: Vec<Term> = Vec::new();
            proof {
                assert(view_terms(out@) =~= Seq::<SpecTerm>::empty());
            }
            Some((out, i))
        },
        _ => {
            match parse_term(t, i) {
                Some((tm, j)) => {
                    proof {
                        lemma_parse_term_bounds(vt, i as int);
                    }
                    match parse_term_list(t, j) {
                        Some((rest, k)) => {
                            let mut out: Vec<Term> = Vec::new();
                            let ghost vtm = tm@;
                            out.push(tm);
                            proof {
                                crate::language::lemma_view_terms(out@);
                                assert(view_terms(out@) =~= seq![vtm]);
                            }
                            crate::ops::append_terms(&mut out, &rest);
                            proof {
                                assert(view_terms(out@) =~= seq![vtm] + view_terms(rest@));
                            }
                            Some((out, k))
                        },
                        None => None,
                    }
                },
                None => None,
            }
        },
    }
}

/// Parses one formula at position `i`.
#[verifier::rlimit(100)]
fn parse_formula(t: &Vec<Token>, i: usize) -> (r: Option<(Formula, usize)>)
    ensures
        ({
            let vt = view_tokens(t@);
            match r {
                Some((x, j)) => spec_parse_formula(vt, i as int) == Some((x@, j as int)),
                None => spec_parse_formula(vt, i as int) is None,
            }
        }),
    decreases t@.len() - i, 2int,
{
    let ghost vt = view_tokens(t@);
    proof {
        lemma_view_tokens(t@);
    }
    if i >= t.len() {
        return None;
    }
    match &t[i] {
        Token::Symbol(n) => {
            let out = Formula::Pred(n.clone(), Vec::new());
            proof {
                assert(view_terms(Seq::<Term>::empty()) =~= Seq::<SpecTerm>::empty());
                assert(out@ == SpecFormula::Pred(n@, Seq::<SpecTerm>::empty()));
            }
            Some((out, i + 1))
        },
        Token::LParen => {
            if i + 1 >= t.len() {
                return None;
            }
            match &t[i + 1] {
                Token::Not => {
                    match parse_formula(t, i + 2) {
                        Some((g, j)) => {
                            proof {
                                lemma_parse_formula_bounds(vt, i + 2);
                            }
                            if j >= t.len() {
                                return None;
                            }
                            match &t[j] {
                                Token::RParen => Some((Formula::Not(Box::new(g)), j + 1)),
                                _ => None,
                            }
                        },
                        None => None,
                    }
                },
                Token::And => {
                    match parse_formula(t, i + 2) {
                        Some((f1, j)) => {
                            proof {
                                lemma_parse_formula_bounds(vt, i + 2);
                            }
                            match parse_formula(t, j) {
                                Some((f2, k)) => {
                                    proof {
                                        lemma_parse_formula_bounds(vt, j as int);
                                    }
                                    if k >= t.len() {
                                        return None;
                                    }
                                    match &t[k] {
                                        Token::RParen => Some(
                                            (
                                                Formula::And(Box::new(f1), Box::new(f2)),
                                                k + 1,
                                            ),
                                        ),
                                        _ => None,
                                    }
                                },
                                None => None,
                            }
                        },
                        None => None,
                    }
                },
                Token::Or => {
                    match parse_formula(t, i + 2) {
                        Some((f1, j)) => {
                            proof {
                                lemma_parse_formula_bounds(vt, i + 2);
                            }
                            match parse_formula(t, j) {
                                Some((f2, k)) => {
                                    proof {
                                        lemma_parse_formula_bounds(vt, j as int);
                                    }
                                    if k >= t.len() {
                                        return None;
                                    }
                                    match &t[k] {
                                        Token::RParen => Some(
                                            (
                                                Formula::Or(Box::new(f1), Box::new(f2)),
                                                k + 1,
                                            ),
                                        ),
                                        _ => None,
                                    }
                                },
                                None => None,
                            }
                        },
                        None => None,
                    }
                },
                Token::Implies => {
                    match parse_formula(t, i + 2) {
                        Some((f1, j)) => {
                            proof {
                                lemma_parse_formula_bounds(vt, i + 2);
                            }
                            match parse_formula(t, j) {
                                Some((f2, k)) => {
                                    proof {
                                        lemma_parse_formula_bounds(vt, j as int);
                                    }
                                    if k >= t.len() {
                                        return None;
                                    }
                                    match &t[k] {
                                        Token::RParen => Some(
                                            (
                                                Formula::Implies(
                                                    Box::new(f1),
                                                    Box::new(f2),
                                                ),
                                                k + 1,
                                            ),
                                        ),
                                        _ => None,
                                    }
                                },
                                None => None,
                            }
                        },
                        None => None,
                    }
                },
                Token::Equal => {
                    match parse_term(t, i + 2) {
                        Some((t1, j)) => {
                            proof {
                                lemma_parse_term_bounds(vt, i + 2);
                            }
                            match parse_term(t, j) {
                                Some((t2, k)) => {
                                    proof {
                                        lemma_parse_term_bounds(vt, j as int);
                                    }
                                    if k >= t.len() {
                                        return None;
                                    }
                                    match &t[k] {
                                        Token::RParen => Some(
                                            (Formula::Equal(t1, t2), k + 1),
                                        ),
                                        _ => None,
                                    }
                                },
                                None => None,
                            }
                        },
                        None => None,
                    }
                },
                Token::Forall => {
                    if i + 2 >= t.len() {
                        return None;
                    }
                    match &t[i + 2] {
                        Token::Symbol(n) => {
                            match parse_formula(t, i + 3) {
                                Some((g, j)) => {
                                    proof {
                                        lemma_parse_formula_bounds(vt, i + 3);
                                    }
                                    if j >= t.len() {
                                        return None;
                                    }
                                    match &t[j] {
                                        Token::RParen => Some(
                                            (
                                                Formula::Forall(
                                                    Term::Var(n.clone()),
                                                    Box::new(g),
                                                ),
                                                j + 1,
                                            ),
                                        ),
                                        _ => None,
                                    }
                                },
                                None => None,
                            }
                        },
                        _ => None,
                    }
                },
                Token::Exists => {
                    if i + 2 >= t.len() {
                        return None;
                    }
                    match &t[i + 2] {
                        Token::Symbol(n) => {
                            match parse_formula(t, i + 3) {
                                Some((g, j)) => {
                                    proof {
                                        lemma_parse_formula_bounds(vt, i + 3);
                                    }
                                    if j >= t.len() {
                                        return None;
                                    }
                                    match &t[j] {
                                        Token::RParen => Some(
                                            (
                                                Formula::Exists(
                                                    Term::Var(n.clone()),
                                                    Box::new(g),
                                                ),
                                                j + 1,
                                            ),
                                        ),
                                        _ => None,
                                    }
                                },
                                None => None,
                            }
                        },
                        _ => None,
                    }
                },
                Token::Symbol(n) => {
                    match parse_term_list(t, i + 2) {
                        Some((args, j)) => {
                            proof {
                                lemma_parse_term_list_bounds(vt, i + 2);
                            }
                            if j >= t.len() {
                                return None;
                            }
                            match &t[j] {
                                Token::RParen => Some((Formula::Pred(n.clone(), args), j + 1)),
                                _ => None,
                            }
                        },
                        None => None,
                    }
                },
                _ => None,
            }
        },
        _ => None,
    }
}

/// The parser. It holds no state between calls.
pub struct Parser {}

impl Parser {
    /// A fresh parser.
    pub fn new() -> Parser {
        Parser {  }
    }

    /// Parses a whole token sequence as one formula. Fails, with no
    /// partial result, unless the tokens form exactly one formula.
    pub fn parse(&mut self, tokens: &Vec<Token>) -> (r: Result<Formula, ParseError>)
        ensures
            ({
                let vt = view_tokens(tokens@);
                match spec_parse_formula(vt, 0) {
                    Some((f, j)) => if j == vt.len() {
                        r matches Ok(g) && g@ == f
                    } else {
                        r is Err
                    },
                    None => r is Err,
                }
            }),
    {
        proof {
            lemma_view_tokens(tokens@);
        }
        match parse_formula(tokens, 0) {
            Some((f, j)) => {
                if j == tokens.len() {
                    Ok(f)
                } else {
                    Err(ParseError)
                }
            },
            None => Err(ParseError),
        }
    }
}

} // verus!
