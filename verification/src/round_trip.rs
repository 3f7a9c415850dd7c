//! The round trip from a formula through its canonical text back to the
//! formula: tokenizing and then parsing the printed form reproduces a
//! structurally equal formula, for every formula whose symbol names the
//! surface syntax can carry.

use vstd::prelude::*;
use crate::language::SpecTerm;
use crate::language::SpecFormula;
use crate::language::SpecToken;
use crate::print::spec_print_term;
use crate::print::spec_print_args;
use crate::print::spec_print_formula;
use crate::tokenizer::spec_tokenize;
use crate::tokenizer::is_stop_char;
use crate::tokenizer::is_special_start;
use crate::tokenizer::lemma_sym_run_char;
use crate::parser::spec_parse_term;
use crate::parser::spec_parse_term_list;
use crate::parser::spec_parse_formula;

verus! {

/// A name the tokenizer reads back as one symbol: non-empty, it starts
/// with no special character or space, and no stop character occurs in it.
pub open spec fn wf_symbol(name: Seq<char>) -> bool {
    &&& name.len() >= 1
    &&& !is_special_start(name[0])
    &&& name[0] != ' '
    &&& forall|i: int| 0 <= i < name.len() ==> !is_stop_char(#[trigger] name[i])
}

/// Every symbol of the term is well-formed.
pub open spec fn printable_term(t: SpecTerm) -> bool
    decreases t,
{
    match t {
        SpecTerm::Var(name) => wf_symbol(name),
        SpecTerm::Func(name, args) => wf_symbol(name) && printable_terms(args),
    }
}

/// Every symbol of every term of the sequence is well-formed.
pub open spec fn printable_terms(ts: Seq<SpecTerm>) -> bool
    decreases ts,
{
    if ts.len() == 0 {
        true
    } else {
        printable_term(ts[0]) && printable_terms(ts.drop_first())
    }
}

/// Every symbol of the formula is well-formed, and every binder binds a
/// variable.
pub open spec fn printable_formula(f: SpecFormula) -> bool
    decreases f,
{
    match f {
        SpecFormula::Pred(name, args) => wf_symbol(name) && printable_terms(args),
        SpecFormula::Equal(lhs, rhs) => printable_term(lhs) && printable_term(rhs),
        SpecFormula::Not(g) => printable_formula(*g),
        SpecFormula::And(lhs, rhs) => printable_formula(*lhs) && printable_formula(*rhs),
        SpecFormula::Or(lhs, rhs) => printable_formula(*lhs) && printable_formula(*rhs),
        SpecFormula::Implies(lhs, rhs) => printable_formula(*lhs) && printable_formula(*rhs),
        SpecFormula::Forall(v, g) => (v matches SpecTerm::Var(n) && wf_symbol(n))
            && printable_formula(*g),
        SpecFormula::Exists(v, g) => (v matches SpecTerm::Var(n) && wf_symbol(n))
            && printable_formula(*g),
    }
}

/// The canonical token sequence of a term.
pub open spec fn tokens_term(t: SpecTerm) -> Seq<SpecToken>
    decreases t,
{
    match t {
        SpecTerm::Var(name) => seq![SpecToken::Symbol(name)],
        SpecTerm::Func(name, args) => seq![SpecToken::LParen, SpecToken::Symbol(name)]
            + tokens_args(args) + seq![SpecToken::RParen],
    }
}

/// The canonical token sequences of an argument list, concatenated.
pub open spec fn tokens_args(ts: Seq<SpecTerm>) -> Seq<SpecToken>
    decreases ts,
{
    if ts.len() == 0 {
        Seq::empty()
    } else {
        tokens_term(ts[0]) + tokens_args(ts.drop_first())
    }
}

/// The canonical token sequence of a formula.
pub open spec fn tokens_formula(f: SpecFormula) -> Seq<SpecToken>
    decreases f,
{
    match f {
        SpecFormula::Pred(name, args) => if args.len() == 0 {
            seq![SpecToken::Symbol(name)]
        } else {
            seq![SpecToken::LParen, SpecToken::Symbol(name)] + tokens_args(args)
                + seq![SpecToken::RParen]
        },
        SpecFormula::Equal(lhs, rhs) => seq![SpecToken::LParen, SpecToken::Equal] + tokens_term(
            lhs,
        ) + tokens_term(rhs) + seq![SpecToken::RParen],
        SpecFormula::Not(g) => seq![SpecToken::LParen, SpecToken::Not] + tokens_formula(*g)
            + seq![SpecToken::RParen],
        SpecFormula::And(lhs, rhs) => seq![SpecToken::LParen, SpecToken::And] + tokens_formula(
            *lhs,
        ) + tokens_formula(*rhs) + seq![SpecToken::RParen],
        SpecFormula::Or(lhs, rhs) => seq![SpecToken::LParen, SpecToken::Or] + tokens_formula(
            *lhs,
        ) + tokens_formula(*rhs) + seq![SpecToken::RParen],
        SpecFormula::Implies(lhs, rhs) => seq![SpecToken::LParen, SpecToken::Implies]
            + tokens_formula(*lhs) + tokens_formula(*rhs) + seq![SpecToken::RParen],
        SpecFormula::Forall(v, g) => seq![SpecToken::LParen, SpecToken::Forall] + tokens_term(v)
            + tokens_formula(*g) + seq![SpecToken::RParen],
        SpecFormula::Exists(v, g) => seq![SpecToken::LParen, SpecToken::Exists] + tokens_term(v)
            + tokens_formula(*g) + seq![SpecToken::RParen],
    }
}

/// Text after which a symbol run surely ends: nothing, or a stop
/// character first.
pub open spec fn boundary(rest: Seq<char>) -> bool {
    rest.len() == 0 || is_stop_char(rest[0])
}

/// A well-formed name followed by a boundary tokenizes as one symbol.
proof fn lemma_tokenize_symbol(name: Seq<char>, rest: Seq<char>)
    requires
        wf_symbol(name),
        boundary(rest),
    ensures
        spec_tokenize(name + rest) == seq![SpecToken::Symbol(name)] + spec_tokenize(rest),
{
    let s = name + rest;
    assert(s[0] == name[0]);
    assert(!is_stop_char(name[0]));
    assert forall|m: int| 0 <= m < name.len() - 1 implies !is_stop_char(
        #[trigger] s.drop_first()[m],
    ) by {
        assert(s.drop_first()[m] == name[m + 1]);
    };
    if rest.len() > 0 {
        assert(s.drop_first()[name.len() - 1] == rest[0]);
    }
    lemma_sym_run_char(s.drop_first(), name.len() - 1);
    assert(s.take(name.len() as int) =~= name);
    assert(s.skip(name.len() as int) =~= rest);
    assert(spec_tokenize(s) =~= seq![SpecToken::Symbol(name)] + spec_tokenize(rest));
}

/// The canonical text of a term followed by a boundary tokenizes as the
/// term's canonical tokens followed by the rest's.
proof fn lemma_tokenize_term(t: SpecTerm, rest: Seq<char>)
    requires
        printable_term(t),
        boundary(rest),
    ensures
        spec_tokenize(spec_print_term(t) + rest) == tokens_term(t) + spec_tokenize(rest),
    decreases t,
{
    match t {
        SpecTerm::Var(name) => {
            lemma_tokenize_symbol(name, rest);
        },
        SpecTerm::Func(name, args) => {
            let s = spec_print_term(t) + rest;
            let after_name = spec_print_args(args) + (seq![')'] + rest);
            assert(s[0] == '(');
            assert(s.drop_first() =~= name + after_name);
            if args.len() == 0 {
                assert(after_name =~= seq![')'] + rest);
                assert(boundary(after_name));
            } else {
                assert(spec_print_args(args)[0] == ' ');
                assert(after_name[0] == ' ');
            }
            lemma_tokenize_symbol(name, after_name);
            lemma_tokenize_args(args, seq![')'] + rest);
            let close = seq![')'] + rest;
            assert(close[0] == ')');
            assert(close.drop_first() =~= rest);
            assert(spec_tokenize(close) =~= seq![SpecToken::RParen] + spec_tokenize(rest));
            assert(spec_tokenize(s) =~= tokens_term(t) + spec_tokenize(rest));
        },
    }
}

/// The canonical text of an argument list followed by a boundary
/// tokenizes as the arguments' canonical tokens followed by the rest's.
proof fn lemma_tokenize_args(ts: Seq<SpecTerm>, rest: Seq<char>)
    requires
        printable_terms(ts),
        boundary(rest),
    ensures
        spec_tokenize(spec_print_args(ts) + rest) == tokens_args(ts) + spec_tokenize(rest),
    decreases ts,
{
    if ts.len() == 0 {
        assert(spec_print_args(ts) + rest =~= rest);
        assert(tokens_args(ts) + spec_tokenize(rest) =~= spec_tokenize(rest));
    } else {
        let s = spec_print_args(ts) + rest;
        let tail = spec_print_args(ts.drop_first()) + rest;
        assert(s[0] == ' ');
        assert(s.drop_first() =~= spec_print_term(ts[0]) + tail);
        if ts.drop_first().len() == 0 {
            assert(tail =~= rest);
        } else {
            assert(spec_print_args(ts.drop_first())[0] == ' ');
            assert(tail[0] == ' ');
        }
        lemma_tokenize_term(ts[0], tail);
        lemma_tokenize_args(ts.drop_first(), rest);
        assert(spec_tokenize(s) =~= tokens_args(ts) + spec_tokenize(rest));
    }
}

/// The canonical text of a formula followed by a boundary tokenizes as
/// the formula's canonical tokens followed by the rest's.
proof fn lemma_tokenize_formula(f: SpecFormula, rest: Seq<char>)
    requires
        printable_formula(f),
        boundary(rest),
    ensures
        spec_tokenize(spec_print_formula(f) + rest) == tokens_formula(f) + spec_tokenize(rest),
    decreases f,
{
    let s = spec_print_formula(f) + rest;
    match f {
        SpecFormula::Pred(name, args) => {
            if args.len() == 0 {
                lemma_tokenize_symbol(name, rest);
                assert(s =~= name + rest);
            } else {
                let after_name = spec_print_args(args) + (seq![')'] + rest);
                let close = seq![')'] + rest;
                let d1 = s.drop_first();
                assert(s[0] == '(');
                assert(spec_tokenize(s) == seq![SpecToken::LParen] + spec_tokenize(d1));
                assert(d1 =~= name + after_name);
                assert(spec_print_args(args)[0] == ' ');
                assert(after_name[0] == ' ');
                lemma_tokenize_symbol(name, after_name);
                lemma_tokenize_args(args, close);
                assert(close[0] == ')');
                assert(close.drop_first() =~= rest);
                assert(spec_tokenize(close) == seq![SpecToken::RParen] + spec_tokenize(
                    close.drop_first(),
                ));
                assert(spec_tokenize(s) =~= tokens_formula(f) + spec_tokenize(rest));
            }
        },
        SpecFormula::Equal(lhs, rhs) => {
            let close = seq![')'] + rest;
            let after_l = seq![' '] + spec_print_term(rhs) + close;
            let d1 = s.drop_first();
            let d2 = d1.drop_first();
            let d3 = d2.drop_first();
            assert(s[0] == '(');
            assert(spec_tokenize(s) == seq![SpecToken::LParen] + spec_tokenize(d1));
            assert(d1[0] == '=');
            assert(spec_tokenize(d1) == seq![SpecToken::Equal] + spec_tokenize(d2));
            assert(d2[0] == ' ');
            assert(spec_tokenize(d2) == spec_tokenize(d3));
            assert(d3 =~= spec_print_term(lhs) + after_l);
            assert(after_l[0] == ' ');
            lemma_tokenize_term(lhs, after_l);
            assert(spec_tokenize(after_l) == spec_tokenize(after_l.drop_first()));
            assert(after_l.drop_first() =~= spec_print_term(rhs) + close);
            assert(close[0] == ')');
            lemma_tokenize_term(rhs, close);
            assert(close.drop_first() =~= rest);
            assert(spec_tokenize(close) == seq![SpecToken::RParen] + spec_tokenize(
                close.drop_first(),
            ));
            assert(spec_tokenize(s) =~= tokens_formula(f) + spec_tokenize(rest));
        },
        SpecFormula::Not(g) => {
            let close = seq![')'] + rest;
            let d1 = s.drop_first();
            let d2 = d1.drop_first();
            let d3 = d2.drop_first();
            assert(s[0] == '(');
            assert(spec_tokenize(s) == seq![SpecToken::LParen] + spec_tokenize(d1));
            assert(d1[0] == '~');
            assert(spec_tokenize(d1) == seq![SpecToken::Not] + spec_tokenize(d2));
            assert(d2[0] == ' ');
            assert(spec_tokenize(d2) == spec_tokenize(d3));
            assert(d3 =~= spec_print_formula(*g) + close);
            assert(close[0] == ')');
            lemma_tokenize_formula(*g, close);
            assert(close.drop_first() =~= rest);
            assert(spec_tokenize(close) == seq![SpecToken::RParen] + spec_tokenize(
                close.drop_first(),
            ));
            assert(spec_tokenize(s) =~= tokens_formula(f) + spec_tokenize(rest));
        },
        SpecFormula::And(lhs, rhs) => {
            lemma_tokenize_connective(f, *lhs, *rhs, rest);
        },
        SpecFormula::Or(lhs, rhs) => {
            lemma_tokenize_connective(f, *lhs, *rhs, rest);
        },
        SpecFormula::Implies(lhs, rhs) => {
            lemma_tokenize_connective(f, *lhs, *rhs, rest);
        },
        SpecFormula::Forall(v, g) => {
            lemma_tokenize_quantifier(f, v, *g, rest);
        },
        SpecFormula::Exists(v, g) => {
            lemma_tokenize_quantifier(f, v, *g, rest);
        },
    }
}

/// The binary-connective case of [`lemma_tokenize_formula`].
proof fn lemma_tokenize_connective(f: SpecFormula, lhs: SpecFormula, rhs: SpecFormula, rest: Seq<
    char,
>)
    requires
        printable_formula(f),
        boundary(rest),
        (f == SpecFormula::And(Box::new(lhs), Box::new(rhs)) || f == SpecFormula::Or(
            Box::new(lhs),
            Box::new(rhs),
        ) || f == SpecFormula::Implies(Box::new(lhs), Box::new(rhs))),
    ensures
        spec_tokenize(spec_print_formula(f) + rest) == tokens_formula(f) + spec_tokenize(rest),
    decreases f, 0nat,
{
    let s = spec_print_formula(f) + rest;
    let close = seq![')'] + rest;
    let after_l = seq![' '] + spec_print_formula(rhs) + close;
    let d1 = s.drop_first();
    let d2 = d1.drop_first();
    let d3 = d2.drop_first();
    assert(s[0] == '(');
    assert(spec_tokenize(s) == seq![SpecToken::LParen] + spec_tokenize(d1));
    if f is And {
        assert(d1[0] == '^');
        assert(spec_tokenize(d1) == seq![SpecToken::And] + spec_tokenize(d2));
    } else if f is Or {
        assert(d1[0] == 'v');
        assert(spec_tokenize(d1) == seq![SpecToken::Or] + spec_tokenize(d2));
    } else {
        assert(d1[0] == '>');
        assert(spec_tokenize(d1) == seq![SpecToken::Implies] + spec_tokenize(d2));
    }
    assert(d2[0] == ' ');
    assert(spec_tokenize(d2) == spec_tokenize(d3));
    assert(d3 =~= spec_print_formula(lhs) + after_l);
    assert(after_l[0] == ' ');
    lemma_tokenize_formula(lhs, after_l);
    assert(spec_tokenize(after_l) == spec_tokenize(after_l.drop_first()));
    assert(after_l.drop_first() =~= spec_print_formula(rhs) + close);
    assert(close[0] == ')');
    lemma_tokenize_formula(rhs, close);
    assert(close.drop_first() =~= rest);
    assert(spec_tokenize(close) == seq![SpecToken::RParen] + spec_tokenize(close.drop_first()));
    assert(spec_tokenize(s) =~= tokens_formula(f) + spec_tokenize(rest));
}

/// The quantifier case of [`lemma_tokenize_formula`].
proof fn lemma_tokenize_quantifier(f: SpecFormula, v: SpecTerm, g: SpecFormula, rest: Seq<char>)
    requires
        printable_formula(f),
        boundary(rest),
        (f == SpecFormula::Forall(v, Box::new(g)) || f == SpecFormula::Exists(v, Box::new(g))),
    ensures
        spec_tokenize(spec_print_formula(f) + rest) == tokens_formula(f) + spec_tokenize(rest),
    decreases f, 0nat,
{
    let s = spec_print_formula(f) + rest;
    let name = v->Var_0;
    let close = seq![')'] + rest;
    let after_v = seq![' '] + spec_print_formula(g) + close;
    let d1 = s.drop_first();
    let d2 = d1.drop_first();
    assert(s[0] == '(');
    assert(spec_tokenize(s) == seq![SpecToken::LParen] + spec_tokenize(d1));
    if f is Forall {
        assert(d1[0] == 'V');
        assert(spec_tokenize(d1) == seq![SpecToken::Forall] + spec_tokenize(d2));
    } else {
        assert(d1[0] == 'E');
        assert(spec_tokenize(d1) == seq![SpecToken::Exists] + spec_tokenize(d2));
    }
    assert(spec_print_term(v) == name);
    assert(d2 =~= name + after_v);
    assert(after_v[0] == ' ');
    lemma_tokenize_symbol(name, after_v);
    assert(spec_tokenize(after_v) == spec_tokenize(after_v.drop_first()));
    assert(after_v.drop_first() =~= spec_print_formula(g) + close);
    assert(close[0] == ')');
    lemma_tokenize_formula(g, close);
    assert(close.drop_first() =~= rest);
    assert(spec_tokenize(close) == seq![SpecToken::RParen] + spec_tokenize(close.drop_first()));
    assert(tokens_term(v) =~= seq![SpecToken::Symbol(name)]);
    assert(spec_tokenize(s) =~= tokens_formula(f) + spec_tokenize(rest));
}

} // verus!

verus! {

/// A term's canonical tokens are non-empty and never start with a closing
/// parenthesis.
proof fn lemma_tokens_term_shape(t: SpecTerm)
    ensures
        tokens_term(t).len() >= 1,
        !(tokens_term(t)[0] is RParen),
{
    match t {
        SpecTerm::Var(_) => {},
        SpecTerm::Func(_, _) => {},
    }
}

/// A formula's canonical tokens are non-empty.
proof fn lemma_tokens_formula_shape(f: SpecFormula)
    ensures
        tokens_formula(f).len() >= 1,
{
    match f {
        SpecFormula::Pred(_, _) => {},
        SpecFormula::Equal(_, _) => {},
        SpecFormula::Not(_) => {},
        SpecFormula::And(_, _) => {},
        SpecFormula::Or(_, _) => {},
        SpecFormula::Implies(_, _) => {},
        SpecFormula::Forall(_, _) => {},
        SpecFormula::Exists(_, _) => {},
    }
}

/// Parsing at the start of a term's canonical tokens yields the term and
/// stops right after them.
proof fn lemma_parse_term_tokens(toks: Seq<SpecToken>, i: int, tm: SpecTerm)
    requires
        printable_term(tm),
        0 <= i,
        i + tokens_term(tm).len() <= toks.len(),
        toks.subrange(i, i + tokens_term(tm).len()) == tokens_term(tm),
    ensures
        spec_parse_term(toks, i) == Some((tm, i + tokens_term(tm).len())),
    decreases tm,
{
    let tt = tokens_term(tm);
    let l = tt.len() as int;
    assert forall|k: int| 0 <= k < l implies toks[i + k] == tt[k] by {
        assert(toks.subrange(i, i + l)[k] == tt[k]);
    };
    match tm {
        SpecTerm::Var(name) => {
            assert(toks[i + 0] == tt[0]);
            assert(toks[i] == SpecToken::Symbol(name));
        },
        SpecTerm::Func(name, args) => {
            let ta = tokens_args(args);
            let a = ta.len() as int;
            assert(toks[i + 0] == tt[0]);
            assert(toks[i + 1] == tt[1]);
            assert(toks[i + (2 + a)] == tt[2 + a]);
            assert(toks[i] == SpecToken::LParen);
            assert(toks[i + 1] == SpecToken::Symbol(name));
            assert(toks[i + 2 + a] == SpecToken::RParen);
            assert(toks.subrange(i + 2, i + 2 + a) =~= ta) by {
                assert forall|k: int| 0 <= k < a implies toks[i + 2 + k] == ta[k] by {
                    assert(tt[2 + k] == ta[k]);
                };
            };
            lemma_parse_term_list_tokens(toks, i + 2, args);
        },
    }
}

/// Parsing at the start of an argument list's canonical tokens, with the
/// closing parenthesis right after them, yields the arguments and stops
/// on the parenthesis.
proof fn lemma_parse_term_list_tokens(toks: Seq<SpecToken>, i: int, ts: Seq<SpecTerm>)
    requires
        printable_terms(ts),
        0 <= i,
        i + tokens_args(ts).len() < toks.len(),
        toks.subrange(i, i + tokens_args(ts).len()) == tokens_args(ts),
        toks[i + tokens_args(ts).len()] is RParen,
    ensures
        spec_parse_term_list(toks, i) == Some((ts, i + tokens_args(ts).len())),
    decreases ts,
{
    let ta = tokens_args(ts);
    let a = ta.len() as int;
    assert forall|k: int| 0 <= k < a implies toks[i + k] == ta[k] by {
        assert(toks.subrange(i, i + a)[k] == ta[k]);
    };
    if ts.len() == 0 {
        assert(toks[i] is RParen);
        assert(spec_parse_term_list(toks, i) == Some((Seq::<SpecTerm>::empty(), i)));
        assert(ts =~= Seq::<SpecTerm>::empty());
    } else {
        let t0 = tokens_term(ts[0]);
        let l0 = t0.len() as int;
        let rest = tokens_args(ts.drop_first());
        lemma_tokens_term_shape(ts[0]);
        assert(ta[0] == t0[0]);
        assert(toks[i] == t0[0]);
        assert(!(toks[i] is RParen));
        assert(toks.subrange(i, i + l0) =~= t0) by {
            assert forall|k: int| 0 <= k < l0 implies toks[i + k] == t0[k] by {
                assert(ta[k] == t0[k]);
            };
        };
        lemma_parse_term_tokens(toks, i, ts[0]);
        assert(toks.subrange(i + l0, i + l0 + rest.len()) =~= rest) by {
            assert forall|k: int| 0 <= k < rest.len() implies toks[i + l0 + k] == rest[k] by {
                assert(ta[l0 + k] == rest[k]);
            };
        };
        lemma_parse_term_list_tokens(toks, i + l0, ts.drop_first());
        assert(seq![ts[0]] + ts.drop_first() =~= ts);
    }
}

/// Parsing at the start of a formula's canonical tokens yields the
/// formula and stops right after them.
#[verifier::rlimit(100)]
proof fn lemma_parse_formula_tokens(toks: Seq<SpecToken>, i: int, f: SpecFormula)
    requires
        printable_formula(f),
        0 <= i,
        i + tokens_formula(f).len() <= toks.len(),
        toks.subrange(i, i + tokens_formula(f).len()) == tokens_formula(f),
    ensures
        spec_parse_formula(toks, i) == Some((f, i + tokens_formula(f).len())),
    decreases f,
{
    let tf = tokens_formula(f);
    let l = tf.len() as int;
    assert forall|k: int| 0 <= k < l implies toks[i + k] == tf[k] by {
        assert(toks.subrange(i, i + l)[k] == tf[k]);
    };
    match f {
        SpecFormula::Pred(name, args) => {
            if args.len() == 0 {
                assert(toks[i + 0] == tf[0]);
                assert(toks[i] == SpecToken::Symbol(name));
                assert(f == SpecFormula::Pred(name, Seq::<SpecTerm>::empty())) by {
                    assert(args =~= Seq::<SpecTerm>::empty());
                }
            } else {
                let ta = tokens_args(args);
                let a = ta.len() as int;
                assert(toks[i + 0] == tf[0]);
                assert(toks[i + 1] == tf[1]);
                assert(toks[i + (2 + a)] == tf[2 + a]);
                assert(toks[i] == SpecToken::LParen);
                assert(toks[i + 1] == SpecToken::Symbol(name));
                assert(toks[i + 2 + a] == SpecToken::RParen);
                assert(toks.subrange(i + 2, i + 2 + a) =~= ta) by {
                    assert forall|k: int| 0 <= k < a implies toks[i + 2 + k] == ta[k] by {
                        assert(tf[2 + k] == ta[k]);
                    };
                };
                lemma_parse_term_list_tokens(toks, i + 2, args);
            }
        },
        SpecFormula::Equal(lhs, rhs) => {
            let t1 = tokens_term(lhs);
            let l1 = t1.len() as int;
            let t2 = tokens_term(rhs);
            let l2 = t2.len() as int;
            assert(toks[i + 0] == tf[0]);
            assert(toks[i + 1] == tf[1]);
            assert(toks[i] == SpecToken::LParen);
            assert(toks[i + 1] == SpecToken::Equal);
            assert(toks.subrange(i + 2, i + 2 + l1) =~= t1) by {
                assert forall|k: int| 0 <= k < l1 implies toks[i + 2 + k] == t1[k] by {
                    assert(tf[2 + k] == t1[k]);
                };
            };
            lemma_parse_term_tokens(toks, i + 2, lhs);
            lemma_tokens_term_shape(lhs);
            assert(toks.subrange(i + 2 + l1, i + 2 + l1 + l2) =~= t2) by {
                assert forall|k: int| 0 <= k < l2 implies toks[i + 2 + l1 + k] == t2[k] by {
                    assert(tf[2 + l1 + k] == t2[k]);
                };
            };
            lemma_parse_term_tokens(toks, i + 2 + l1, rhs);
            assert(toks[i + (2 + l1 + l2)] == tf[2 + l1 + l2]);
            assert(toks[i + 2 + l1 + l2] == SpecToken::RParen);
        },
        SpecFormula::Not(g) => {
            let tg = tokens_formula(*g);
            let lg = tg.len() as int;
            assert(toks[i + 0] == tf[0]);
            assert(toks[i + 1] == tf[1]);
            assert(toks[i] == SpecToken::LParen);
            assert(toks[i + 1] == SpecToken::Not);
            assert(toks.subrange(i + 2, i + 2 + lg) =~= tg) by {
                assert forall|k: int| 0 <= k < lg implies toks[i + 2 + k] == tg[k] by {
                    assert(tf[2 + k] == tg[k]);
                };
            };
            lemma_parse_formula_tokens(toks, i + 2, *g);
            assert(toks[i + (2 + lg)] == tf[2 + lg]);
            assert(toks[i + 2 + lg] == SpecToken::RParen);
        },
        SpecFormula::And(lhs, rhs) => {
            let t1 = tokens_formula(*lhs);
            let l1 = t1.len() as int;
            let t2 = tokens_formula(*rhs);
            let l2 = t2.len() as int;
            assert(toks[i + 0] == tf[0]);
            assert(toks[i + 1] == tf[1]);
            assert(toks[i] == SpecToken::LParen);
            assert(toks[i + 1] == SpecToken::And);
            assert(toks.subrange(i + 2, i + 2 + l1) =~= t1) by {
                assert forall|k: int| 0 <= k < l1 implies toks[i + 2 + k] == t1[k] by {
                    assert(tf[2 + k] == t1[k]);
                };
            };
            lemma_parse_formula_tokens(toks, i + 2, *lhs);
            lemma_tokens_formula_shape(*lhs);
            assert(toks.subrange(i + 2 + l1, i + 2 + l1 + l2) =~= t2) by {
                assert forall|k: int| 0 <= k < l2 implies toks[i + 2 + l1 + k] == t2[k] by {
                    assert(tf[2 + l1 + k] == t2[k]);
                };
            };
            lemma_parse_formula_tokens(toks, i + 2 + l1, *rhs);
            assert(toks[i + (2 + l1 + l2)] == tf[2 + l1 + l2]);
            assert(toks[i + 2 + l1 + l2] == SpecToken::RParen);
        },
        SpecFormula::Or(lhs, rhs) => {
            let t1 = tokens_formula(*lhs);
            let l1 = t1.len() as int;
            let t2 = tokens_formula(*rhs);
            let l2 = t2.len() as int;
            assert(toks[i + 0] == tf[0]);
            assert(toks[i + 1] == tf[1]);
            assert(toks[i] == SpecToken::LParen);
            assert(toks[i + 1] == SpecToken::Or);
            assert(toks.subrange(i + 2, i + 2 + l1) =~= t1) by {
                assert forall|k: int| 0 <= k < l1 implies toks[i + 2 + k] == t1[k] by {
                    assert(tf[2 + k] == t1[k]);
                };
            };
            lemma_parse_formula_tokens(toks, i + 2, *lhs);
            lemma_tokens_formula_shape(*lhs);
            assert(toks.subrange(i + 2 + l1, i + 2 + l1 + l2) =~= t2) by {
                assert forall|k: int| 0 <= k < l2 implies toks[i + 2 + l1 + k] == t2[k] by {
                    assert(tf[2 + l1 + k] == t2[k]);
                };
            };
            lemma_parse_formula_tokens(toks, i + 2 + l1, *rhs);
            assert(toks[i + (2 + l1 + l2)] == tf[2 + l1 + l2]);
            assert(toks[i + 2 + l1 + l2] == SpecToken::RParen);
        },
        SpecFormula::Implies(lhs, rhs) => {
            let t1 = tokens_formula(*lhs);
            let l1 = t1.len() as int;
            let t2 = tokens_formula(*rhs);
            let l2 = t2.len() as int;
            assert(toks[i + 0] == tf[0]);
            assert(toks[i + 1] == tf[1]);
            assert(toks[i] == SpecToken::LParen);
            assert(toks[i + 1] == SpecToken::Implies);
            assert(toks.subrange(i + 2, i + 2 + l1) =~= t1) by {
                assert forall|k: int| 0 <= k < l1 implies toks[i + 2 + k] == t1[k] by {
                    assert(tf[2 + k] == t1[k]);
                };
            };
            lemma_parse_formula_tokens(toks, i + 2, *lhs);
            lemma_tokens_formula_shape(*lhs);
            assert(toks.subrange(i + 2 + l1, i + 2 + l1 + l2) =~= t2) by {
                assert forall|k: int| 0 <= k < l2 implies toks[i + 2 + l1 + k] == t2[k] by {
                    assert(tf[2 + l1 + k] == t2[k]);
                };
            };
            lemma_parse_formula_tokens(toks, i + 2 + l1, *rhs);
            assert(toks[i + (2 + l1 + l2)] == tf[2 + l1 + l2]);
            assert(toks[i + 2 + l1 + l2] == SpecToken::RParen);
        },
        SpecFormula::Forall(v, g) => {
            let name = v->Var_0;
            let tg = tokens_formula(*g);
            let lg = tg.len() as int;
            assert(tokens_term(v) =~= seq![SpecToken::Symbol(name)]);
            assert(toks[i + 0] == tf[0]);
            assert(toks[i + 1] == tf[1]);
            assert(toks[i + 2] == tf[2]);
            assert(toks[i] == SpecToken::LParen);
            assert(toks[i + 1] == SpecToken::Forall);
            assert(toks[i + 2] == SpecToken::Symbol(name));
            assert(toks.subrange(i + 3, i + 3 + lg) =~= tg) by {
                assert forall|k: int| 0 <= k < lg implies toks[i + 3 + k] == tg[k] by {
                    assert(tf[3 + k] == tg[k]);
                };
            };
            lemma_parse_formula_tokens(toks, i + 3, *g);
            assert(toks[i + (3 + lg)] == tf[3 + lg]);
            assert(toks[i + 3 + lg] == SpecToken::RParen);
        },
        SpecFormula::Exists(v, g) => {
            let name = v->Var_0;
            let tg = tokens_formula(*g);
            let lg = tg.len() as int;
            assert(tokens_term(v) =~= seq![SpecToken::Symbol(name)]);
            assert(toks[i + 0] == tf[0]);
            assert(toks[i + 1] == tf[1]);
            assert(toks[i + 2] == tf[2]);
            assert(toks[i] == SpecToken::LParen);
            assert(toks[i + 1] == SpecToken::Exists);
            assert(toks[i + 2] == SpecToken::Symbol(name));
            assert(toks.subrange(i + 3, i + 3 + lg) =~= tg) by {
                assert forall|k: int| 0 <= k < lg implies toks[i + 3 + k] == tg[k] by {
                    assert(tf[3 + k] == tg[k]);
                };
            };
            lemma_parse_formula_tokens(toks, i + 3, *g);
            assert(toks[i + (3 + lg)] == tf[3 + lg]);
            assert(toks[i + 3 + lg] == SpecToken::RParen);
        },
    }
}

/// The round trip: tokenizing a formula's canonical printed form yields
/// its canonical tokens, and parsing those reproduces the formula, all of
/// the text consumed.
pub proof fn lemma_round_trip(f: SpecFormula)
    requires
        printable_formula(f),
    ensures
        spec_tokenize(spec_print_formula(f)) == tokens_formula(f),
        spec_parse_formula(tokens_formula(f), 0) == Some(
            (f, tokens_formula(f).len() as int),
        ),
{
    lemma_tokenize_formula(f, Seq::empty());
    assert(spec_print_formula(f) + Seq::empty() =~= spec_print_formula(f));
    assert(spec_tokenize(Seq::<char>::empty()) =~= Seq::<SpecToken>::empty());
    assert(tokens_formula(f) + spec_tokenize(Seq::<char>::empty()) =~= tokens_formula(f));
    let toks = tokens_formula(f);
    assert(toks.subrange(0, toks.len() as int) =~= toks);
    lemma_parse_formula_tokens(toks, 0, f);
}

} // verus!
