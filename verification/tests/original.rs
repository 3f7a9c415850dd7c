use std::collections::HashSet;

use lk_checker::language::Formula;
use lk_checker::language::NonLogicalSymbol;
use lk_checker::language::Term::{Func, Var};
use lk_checker::language::Token;
use lk_checker::parser::Parser;
use lk_checker::tokenizer::Tokenizer;

fn sample_tokens() -> Vec<Token> {
    vec![
        Token::LParen,
        Token::Forall,
        Token::Symbol("x0".into()),
        Token::LParen,
        Token::Exists,
        Token::Symbol("x1".into()),
        Token::LParen,
        Token::And,
        Token::LParen,
        Token::Equal,
        Token::LParen,
        Token::Symbol("a".into()),
        Token::Symbol("x".into()),
        Token::Symbol("y".into()),
        Token::RParen,
        Token::LParen,
        Token::Symbol("b".into()),
        Token::Symbol("x".into()),
        Token::Symbol("y".into()),
        Token::RParen,
        Token::RParen,
        Token::LParen,
        Token::Or,
        Token::LParen,
        Token::Not,
        Token::LParen,
        Token::Symbol("p".into()),
        Token::Symbol("y".into()),
        Token::RParen,
        Token::RParen,
        Token::Symbol("q".into()),
        Token::RParen,
        Token::RParen,
        Token::RParen,
        Token::RParen,
    ]
}

fn sample_formula() -> Formula {
    Formula::Forall(
        Var("x0".into()),
        Box::new(Formula::Exists(
            Var("x1".into()),
            Box::new(Formula::And(
                Box::new(Formula::Equal(
                    Func("a".into(), vec![Var("x".into()), Var("y".into())]),
                    Func("b".into(), vec![Var("x".into()), Var("y".into())]),
                )),
                Box::new(Formula::Or(
                    Box::new(Formula::Not(Box::new(Formula::Pred(
                        "p".into(),
                        vec![Var("y".into())],
                    )))),
                    Box::new(Formula::Pred("q".into(), vec![])),
                )),
            )),
        )),
    )
}

#[test]
fn tokenizer_works() {
    let mut tokenizer = Tokenizer::new();
    let tokens = tokenizer.tokenize("(Vx0 (Ex1 (^ (= (a x y) (b x y)) (v (~ (p y)) q))))");
    let gt = sample_tokens();

    assert_eq!(gt, tokens);
}

#[test]
fn parser_works() {
    let mut parser = Parser::new();
    let tokens = sample_tokens();
    let gt = sample_formula();

    if let Ok(formula) = parser.parse(&tokens) {
        assert_eq!(gt, formula);
    } else {
        panic!("Parse error.");
    }
}

#[test]
fn var_group_works() {
    let formula = sample_formula();

    let free_vars: HashSet<_> = formula.get_free_vars().into_iter().collect();
    let bound_vars: HashSet<_> = formula.get_bound_vars().into_iter().collect();

    let mut free_gt = HashSet::new();
    free_gt.insert(Var("x".into()));
    free_gt.insert(Var("y".into()));
    let mut bound_gt = HashSet::new();
    bound_gt.insert(Var("x0".into()));
    bound_gt.insert(Var("x1".into()));

    assert_eq!(free_gt, free_vars);
    assert_eq!(bound_gt, bound_vars);
}

#[test]
fn get_funcs_works() {
    let formula = sample_formula();

    let funcs: HashSet<_> = formula.get_funcs().into_iter().collect();

    let mut gt = HashSet::new();
    gt.insert(NonLogicalSymbol {
        name: "a".into(),
        arity: 2,
    });
    gt.insert(NonLogicalSymbol {
        name: "b".into(),
        arity: 2,
    });

    assert_eq!(gt, funcs);
}

#[test]
fn get_preds_works() {
    let formula = sample_formula();

    let preds: HashSet<_> = formula.get_preds().into_iter().collect();

    let mut gt = HashSet::new();
    gt.insert(NonLogicalSymbol {
        name: "p".into(),
        arity: 1,
    });
    gt.insert(NonLogicalSymbol {
        name: "q".into(),
        arity: 0,
    });

    assert_eq!(gt, preds);
}
