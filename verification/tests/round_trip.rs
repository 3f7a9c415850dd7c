use lk_checker::language::Formula;
use lk_checker::language::Term::{Func, Var};
use lk_checker::parser::Parser;
use lk_checker::tokenizer::Tokenizer;

#[test]
fn print_tokenize_parse_round_trip() {
    let formula = Formula::Forall(
        Var("x0".into()),
        Box::new(Formula::Exists(
            Var("x1".into()),
            Box::new(Formula::And(
                Box::new(Formula::Equal(
                    Func("a".into(), vec![Var("x".into()), Var("y".into())]),
                    Func("b".into(), vec![Var("x".into()), Var("y".into())]),
                )),
                Box::new(Formula::Or(
                    Box::new(Formula::Not(Box::new(Formula::Pred(
                        "p".into(),
                        vec![Var("y".into())],
                    )))),
                    Box::new(Formula::Pred("q".into(), vec![])),
                )),
            )),
        )),
    );

    let text = formula.to_string();
    assert_eq!("(Vx0 (Ex1 (^ (= (a x y) (b x y)) (v (~ (p y)) q))))", text);

    let mut tokenizer = Tokenizer::new();
    let tokens = tokenizer.tokenize(&text);
    let mut parser = Parser::new();
    let reparsed = parser.parse(&tokens).expect("the canonical text parses");
    assert_eq!(formula, reparsed);
}

#[test]
fn parse_rejects_malformed_text() {
    let mut tokenizer = Tokenizer::new();
    let mut parser = Parser::new();

    // unbalanced parentheses
    let tokens = tokenizer.tokenize("(^ p q");
    assert!(parser.parse(&tokens).is_err());

    // trailing tokens after a complete formula
    let tokens = tokenizer.tokenize("p q");
    assert!(parser.parse(&tokens).is_err());

    // a connective with a missing operand
    let tokens = tokenizer.tokenize("(^ p)");
    assert!(parser.parse(&tokens).is_err());

    // the empty input
    let tokens = tokenizer.tokenize("");
    assert!(parser.parse(&tokens).is_err());
}

#[test]
fn implication_and_equality_round_trip() {
    let formula = Formula::Implies(
        Box::new(Formula::Equal(Var("x".into()), Var("y".into()))),
        Box::new(Formula::Pred("r".into(), vec![Var("x".into())])),
    );
    let text = formula.to_string();
    assert_eq!("(> (= x y) (r x))", text);

    let mut tokenizer = Tokenizer::new();
    let tokens = tokenizer.tokenize(&text);
    let mut parser = Parser::new();
    let reparsed = parser.parse(&tokens).expect("the canonical text parses");
    assert_eq!(formula, reparsed);
}
