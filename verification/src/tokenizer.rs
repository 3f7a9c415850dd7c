//! The tokenizer for the prefix S-expression surface syntax: one-character
//! special tokens, spaces as separators, and maximal runs of other
//! characters as symbols.

use vstd::prelude::*;
use crate::language::Token;
use crate::language::SpecToken;

verus! {

/// Characters that end a symbol run.
pub open spec fn is_stop_char(c: char) -> bool {
    c == '(' || c == ')' || c == '=' || c == 'V' || c == 'E' || c == ' '
}

/// Characters that form a one-character token when they start a token.
pub open spec fn is_special_start(c: char) -> bool {
    c == '(' || c == ')' || c == '~' || c == '^' || c == 'v' || c == '>' || c == '='
        || c == 'V' || c == 'E'
}

/// The length of the leading run of non-stop characters.
pub open spec fn sym_run(s: Seq<char>) -> int
    decreases s,
{
    if s.len() == 0 || is_stop_char(s[0]) {
        0
    } else {
        1 + sym_run(s.drop_first())
    }
}

/// The symbol run never exceeds the text.
pub proof fn lemma_sym_run_le(s: Seq<char>)
    ensures
        0 <= sym_run(s) <= s.len(),
    decreases s,
{
    if !(s.len() == 0 || is_stop_char(s[0])) {
        lemma_sym_run_le(s.drop_first());
    }
}

/// If the first `k` characters are non-stop and the character at `k` (if
/// any) is a stop, the symbol run is `k`.
pub proof fn lemma_sym_run_char(t: Seq<char>, k: int)
    requires
        0 <= k <= t.len(),
        forall|m: int| 0 <= m < k ==> !is_stop_char(t[m]),
        k == t.len() || is_stop_char(t[k]),
    ensures
        sym_run(t) == k,
    decreases t,
{
    if k == 0 {
    } else {
        assert(!is_stop_char(t[0]));
        lemma_sym_run_char(t.drop_first(), k - 1);
    }
}

/// The token sequence of a text: each special character is its own token,
/// spaces separate and produce nothing, and any other character starts a
/// maximal symbol run.
pub open spec fn spec_tokenize(s: Seq<char>) -> Seq<SpecToken>
    decreases s.len(),
    via spec_tokenize_decreases
{
    if s.len() == 0 {
        Seq::empty()
    } else {
        let c = s[0];
        if c == '(' {
            seq![SpecToken::LParen] + spec_tokenize(s.drop_first())
        } else if c == ')' {
            seq![SpecToken::RParen] + spec_tokenize(s.drop_first())
        } else if c == '~' {
            seq![SpecToken::Not] + spec_tokenize(s.drop_first())
        } else if c == '^' {
            seq![SpecToken::And] + spec_tokenize(s.drop_first())
        } else if c == 'v' {
            seq![SpecToken::Or] + spec_tokenize(s.drop_first())
        } else if c == '>' {
            seq![SpecToken::Implies] + spec_tokenize(s.drop_first())
        } else if c == '=' {
            seq![SpecToken::Equal] + spec_tokenize(s.drop_first())
        } else if c == 'V' {
            seq![SpecToken::Forall] + spec_tokenize(s.drop_first())
        } else if c == 'E' {
            seq![SpecToken::Exists] + spec_tokenize(s.drop_first())
        } else if c == ' ' {
            spec_tokenize(s.drop_first())
        } else {
            let n = 1 + sym_run(s.drop_first());
            seq![SpecToken::Symbol(s.take(n))] + spec_tokenize(s.skip(n))
        }
    }
}

#[via_fn]
proof fn spec_tokenize_decreases(s: Seq<char>) {
    if s.len() > 0 {
        lemma_sym_run_le(s.drop_first());
    }
}

/// Models of a sequence of tokens, elementwise.
pub open spec fn view_tokens(ts: Seq<Token>) -> Seq<SpecToken>
    decreases ts,
{
    if ts.len() == 0 {
        Seq::empty()
    } else {
        seq![ts[0]@] + view_tokens(ts.drop_first())
    }
}

/// `view_tokens` maps the view over the sequence.
pub proof fn lemma_view_tokens(ts: Seq<Token>)
    ensures
        view_tokens(ts).len() == ts.len(),
        forall|i: int| 0 <= i < ts.len() ==> view_tokens(ts)[i] == ts[i]@,
    decreases ts,
{
    if ts.len() > 0 {
        lemma_view_tokens(ts.drop_first());
    }
}

/// Whether the character ends a symbol run.
fn stop_char(c: char) -> (r: bool)
    ensures
        r == is_stop_char(c),
{
    c == '(' || c == ')' || c == '=' || c == 'V' || c == 'E' || c == ' '
}

/// The tokenizer. It holds no state between calls; each call to
/// [`Tokenizer::tokenize`] scans its input afresh.
pub struct Tokenizer {}

impl Tokenizer {
    /// A fresh tokenizer.
    pub fn new() -> Tokenizer {
        Tokenizer {  }
    }

    /// The token sequence of the input text.
    #[verifier::loop_isolation(false)]
    #[verifier::rlimit(60)]
    pub fn tokenize(&mut self, s: &str) -> (r: Vec<Token>)
        ensures
            view_tokens(r@) == spec_tokenize(s@),
    {
        let n = s.unicode_len();
        let mut out: Vec<Token> = Vec::new();
        let mut i: usize = 0;
        proof {
            assert(s@.skip(0) =~= s@);
        }
        while i < n
            invariant
                0 <= i <= n,
                view_tokens(out@) + spec_tokenize(s@.skip(i as int)) == spec_tokenize(s@),
            decreases n - i,
        {
            let ghost rest = s@.skip(i as int);
            let ghost out0 = out@;
            proof {
                lemma_view_tokens(out0);
                assert(rest[0] == s@[i as int]);
                assert(rest.drop_first() =~= s@.skip(i + 1));
            }
            let c = s.get_char(i);
            if c == '(' {
                out.push(Token::LParen);
                i = i + 1;
            } else if c == ')' {
                out.push(Token::RParen);
                i = i + 1;
            } else if c == '~' {
                out.push(Token::Not);
                i = i + 1;
            } else if c == '^' {
                out.push(Token::And);
                i = i + 1;
            } else if c == 'v' {
                out.push(Token::Or);
                i = i + 1;
            } else if c == '>' {
                out.push(Token::Implies);
                i = i + 1;
            } else if c == '=' {
                out.push(Token::Equal);
                i = i + 1;
            } else if c == 'V' {
                out.push(Token::Forall);
                i = i + 1;
            } else if c == 'E' {
                out.push(Token::Exists);
                i = i + 1;
            } else if c == ' ' {
                i = i + 1;
            } else {
                let mut j = i + 1;
                while j < n && !stop_char(s.get_char(j))
                    invariant
                        i + 1 <= j <= n,
                        forall|m: int| i + 1 <= m < j ==> !is_stop_char(s@[m]),
                    decreases n - j,
                {
                    j = j + 1;
                }
                proof {
                    assert forall|m: int| 0 <= m < j - i - 1 implies !is_stop_char(
                        rest.drop_first()[m],
                    ) by {
                        assert(rest.drop_first()[m] == s@[i + 1 + m]);
                    };
                    if j < n {
                        assert(rest.drop_first()[j - i - 1] == s@[j as int]);
                    }
                    lemma_sym_run_char(rest.drop_first(), j - i - 1);
                    assert(rest.take(j - i) =~= s@.subrange(i as int, j as int));
                    assert(rest.skip(j - i) =~= s@.skip(j as int));
                }
                let name = s.substring_char(i, j);
                out.push(Token::Symbol(String::from_str(name)));
                i = j;
            }
            proof {
                lemma_view_tokens(out@);
                assert(view_tokens(out@) + spec_tokenize(s@.skip(i as int)) =~= spec_tokenize(
                    s@,
                ));
            }
        }
        proof {
            assert(s@.skip(n as int) =~= Seq::<char>::empty());
            assert(view_tokens(out@) =~= spec_tokenize(s@));
        }
        out
    }
}

} // verus!
