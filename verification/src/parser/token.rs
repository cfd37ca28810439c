//! Lexical scanner: classifies a character stream into an ordered sequence
//! of tokens. Whitespace separates tokens and is not itself a token; the
//! scanner does not check delimiter balance, which is the parser's job.

use vstd::prelude::*;
use vstd::string::*;

use crate::number::{NumV, ShenNumber, is_digit_char, is_numeral, numeral_num};
use crate::text::{push_char, run_end, lemma_run_end_bounds, lemma_run_end_is, chars_of,
    string_from_range, str_eq};

verus! {

broadcast use vstd::std_specs::vec::group_vec_axioms, vstd::seq::group_seq_axioms;

/// A lexical token of the source language.
#[derive(Debug, PartialEq)]
pub enum Token {
    OpenParen,
    CloseParen,
    Defun,
    Lambda,
    If,
    Let,
    List,
    Identifier(String),
    Literal(String),
    Operator(String),
    Number(ShenNumber),
}

/// Mathematical model of a [`Token`].
#[verifier::ext_equal]
pub enum TokV {
    OpenParen,
    CloseParen,
    Defun,
    Lambda,
    If,
    Let,
    List,
    Identifier(Seq<char>),
    Literal(Seq<char>),
    Operator(Seq<char>),
    Number(NumV),
}

impl DeepView for Token {
    type V = TokV;

    open spec fn deep_view(&self) -> TokV {
        match self {
            Token::OpenParen => TokV::OpenParen,
            Token::CloseParen => TokV::CloseParen,
            Token::Defun => TokV::Defun,
            Token::Lambda => TokV::Lambda,
            Token::If => TokV::If,
            Token::Let => TokV::Let,
            Token::List => TokV::List,
            Token::Identifier(s) => TokV::Identifier(s@),
            Token::Literal(s) => TokV::Literal(s@),
            Token::Operator(s) => TokV::Operator(s@),
            Token::Number(n) => TokV::Number(n@),
        }
    }
}

/// Operator characters; a greedy run of them forms one operator token.
pub open spec fn is_op_char(c: char) -> bool {
    c == '+' || c == '-' || c == '*' || c == '/' || c == '=' || c == '<' || c == '>'
}

/// Skipped between tokens.
pub open spec fn is_space_char(c: char) -> bool {
    c == ' ' || c == '\t' || c == '\n' || c == '\r'
}

/// May open an identifier.
pub open spec fn is_ident_start(c: char) -> bool {
    ('a' <= c && c <= 'z') || ('A' <= c && c <= 'Z') || c == '_'
}

/// May continue an identifier.
pub open spec fn is_ident_char(c: char) -> bool {
    is_ident_start(c) || is_digit_char(c) || c == '?' || c == '!'
}

/// Consumed greedily when a digit opens a number.
pub open spec fn is_num_char(c: char) -> bool {
    is_digit_char(c) || c == '.'
}

/// Keyword classification of a completed identifier run.
pub open spec fn classify_ident(w: Seq<char>) -> TokV {
    if w == "defun"@ {
        TokV::Defun
    } else if w == "lambda"@ || w == "fn"@ {
        TokV::Lambda
    } else if w == "if"@ {
        TokV::If
    } else if w == "let"@ {
        TokV::Let
    } else if w == "list"@ {
        TokV::List
    } else {
        TokV::Identifier(w)
    }
}

/// Prepends a token to a scan continuation, keeping any error.
pub open spec fn scan_cons(t: TokV, rest: Result<Seq<TokV>, Seq<char>>) -> Result<
    Seq<TokV>,
    Seq<char>,
> {
    match rest {
        Ok(ts) => Ok(seq![t] + ts),
        Err(e) => Err(e),
    }
}

/// The token sequence denoted by a character stream, or the scan error
/// message. This is the exact specification [`tokenize`] is proved against.
pub open spec fn scan(s: Seq<char>) -> Result<Seq<TokV>, Seq<char>>
    decreases s.len(),
        via scan_decreases
{
    if s.len() == 0 {
        Ok(Seq::empty())
    } else {
        let c = s[0];
        if c == '(' {
            scan_cons(TokV::OpenParen, scan(s.drop_first()))
        } else if c == ')' {
            scan_cons(TokV::CloseParen, scan(s.drop_first()))
        } else if is_space_char(c) {
            scan(s.drop_first())
        } else if c == '\\' || c == '\u{03bb}' {
            scan_cons(TokV::Lambda, scan(s.drop_first()))
        } else if is_op_char(c) {
            let e = run_end(s, 0, |ch: char| is_op_char(ch));
            scan_cons(TokV::Operator(s.take(e)), scan(s.skip(e)))
        } else if is_ident_start(c) {
            let e = run_end(s, 0, |ch: char| is_ident_char(ch));
            scan_cons(classify_ident(s.take(e)), scan(s.skip(e)))
        } else if is_digit_char(c) {
            let e = run_end(s, 0, |ch: char| is_num_char(ch));
            if is_numeral(s.take(e)) {
                scan_cons(TokV::Number(numeral_num(s.take(e), false)), scan(s.skip(e)))
            } else {
                Err("Invalid number: "@ + s.take(e))
            }
        } else if c == '"' {
            let e = run_end(s, 1, |ch: char| ch != '"');
            if e == s.len() {
                scan_cons(TokV::Literal(s.subrange(1, e)), Ok(Seq::empty()))
            } else {
                scan_cons(TokV::Literal(s.subrange(1, e)), scan(s.skip(e + 1)))
            }
        } else {
            Err("Unexpected character: "@ + seq![c])
        }
    }
}

#[via_fn]
proof fn scan_decreases(s: Seq<char>) {
    if s.len() > 0 {
        lemma_run_end_bounds(s, 0, |ch: char| is_op_char(ch));
        lemma_run_end_bounds(s, 0, |ch: char| is_ident_char(ch));
        lemma_run_end_bounds(s, 0, |ch: char| is_num_char(ch));
        lemma_run_end_bounds(s, 1, |ch: char| ch != '"');
    }
}

/// Appends a scan continuation to already-scanned tokens.
pub open spec fn scan_with(prefix: Seq<TokV>, rest: Result<Seq<TokV>, Seq<char>>) -> Result<
    Seq<TokV>,
    Seq<char>,
> {
    match rest {
        Ok(ts) => Ok(prefix + ts),
        Err(e) => Err(e),
    }
}

proof fn lemma_scan_shift(prefix: Seq<TokV>, t: TokV, rest: Result<Seq<TokV>, Seq<char>>)
    ensures
        scan_with(prefix, scan_cons(t, rest)) == scan_with(prefix.push(t), rest),
{
    match rest {
        Ok(ts) => {
            assert(prefix + (seq![t] + ts) =~= prefix.push(t) + ts);
        },
        Err(_) => {},
    }
}

/// Scans `input` into tokens, or reports the first lexical fault. The result
/// is exactly what [`scan`] says of the character stream.
pub fn tokenize(input: &str) -> (r: Result<Vec<Token>, String>)
    ensures
        ({
            let g = scan(input@);
            match r {
                Ok(toks) => g == Ok::<Seq<TokV>, Seq<char>>(toks.deep_view()),
                Err(m) => g == Err::<Seq<TokV>, Seq<char>>(m@),
            }
        }),
{
    let v = chars_of(input);
    let ghost s = input@;
    let mut tokens: Vec<Token> = Vec::new();
    let mut i: usize = 0;
    proof {
        assert(s.skip(0) =~= s);
        if scan(s) is Ok {
            assert(Seq::<TokV>::empty() + scan(s)->Ok_0 =~= scan(s)->Ok_0);
        }
    }
    while i < v.len()
        invariant
            i <= v@.len(),
            v@ == s,
            s == input@,
            scan(s) == scan_with(tokens.deep_view(), scan(s.skip(i as int))),
        decreases v@.len() - i,
    {
        let ghost rem = s.skip(i as int);
        let ghost old_toks = tokens.deep_view();
        let c = v[i];
        proof {
            assert(rem[0] == s[i as int]);
            assert(rem.drop_first() =~= s.skip(i as int + 1));
        }
        if c == '(' {
            tokens.push(Token::OpenParen);
            proof {
                assert(tokens.deep_view() =~= old_toks.push(TokV::OpenParen));
                lemma_scan_shift(old_toks, TokV::OpenParen, scan(s.skip(i as int + 1)));
            }
            i += 1;
        } else if c == ')' {
            tokens.push(Token::CloseParen);
            proof {
                assert(tokens.deep_view() =~= old_toks.push(TokV::CloseParen));
                lemma_scan_shift(old_toks, TokV::CloseParen, scan(s.skip(i as int + 1)));
            }
            i += 1;
        } else if c == ' ' || c == '\t' || c == '\n' || c == '\r' {
            i += 1;
        } else if c == '\\' || c == '\u{03bb}' {
            tokens.push(Token::Lambda);
            proof {
                assert(tokens.deep_view() =~= old_toks.push(TokV::Lambda));
                lemma_scan_shift(old_toks, TokV::Lambda, scan(s.skip(i as int + 1)));
            }
            i += 1;
        } else if c == '+' || c == '-' || c == '*' || c == '/' || c == '=' || c == '<' || c == '>' {
            let mut j: usize = i;
            while j < v.len() && (v[j] == '+' || v[j] == '-' || v[j] == '*' || v[j] == '/'
                || v[j] == '=' || v[j] == '<' || v[j] == '>')
                invariant
                    i <= j <= v@.len(),
                    v@ == s,
                    forall|k: int| i <= k < j ==> is_op_char(#[trigger] s[k]),
                decreases v@.len() - j,
            {
                j += 1;
            }
            proof {
                assert(forall|k: int| 0 <= k < j - i ==> is_op_char(#[trigger] rem[k]));
                lemma_run_end_is(rem, 0, j - i, |ch: char| is_op_char(ch));
                assert(rem.take(j - i) =~= s.subrange(i as int, j as int));
                assert(rem.skip(j - i) =~= s.skip(j as int));
            }
            let text = string_from_range(&v, i, j);
            tokens.push(Token::Operator(text));
            proof {
                assert(tokens.deep_view() =~= old_toks.push(
                    TokV::Operator(s.subrange(i as int, j as int))));
                lemma_scan_shift(old_toks, TokV::Operator(s.subrange(i as int, j as int)),
                    scan(s.skip(j as int)));
            }
            i = j;
        } else if (c >= 'a' && c <= 'z') || (c >= 'A' && c <= 'Z') || c == '_' {
            let mut j: usize = i;
            while j < v.len() && ((v[j] >= 'a' && v[j] <= 'z') || (v[j] >= 'A' && v[j] <= 'Z')
                || v[j] == '_' || (v[j] >= '0' && v[j] <= '9') || v[j] == '?' || v[j] == '!')
                invariant
                    i <= j <= v@.len(),
                    v@ == s,
                    forall|k: int| i <= k < j ==> is_ident_char(#[trigger] s[k]),
                decreases v@.len() - j,
            {
                j += 1;
            }
            proof {
                assert(forall|k: int| 0 <= k < j - i ==> is_ident_char(#[trigger] rem[k]));
                lemma_run_end_is(rem, 0, j - i, |ch: char| is_ident_char(ch));
                assert(rem.take(j - i) =~= s.subrange(i as int, j as int));
                assert(rem.skip(j - i) =~= s.skip(j as int));
            }
            let w = string_from_range(&v, i, j);
            let tok = if str_eq(w.as_str(), "defun") {
                Token::Defun
            } else if str_eq(w.as_str(), "lambda") || str_eq(w.as_str(), "fn") {
                Token::Lambda
            } else if str_eq(w.as_str(), "if") {
                Token::If
            } else if str_eq(w.as_str(), "let") {
                Token::Let
            } else if str_eq(w.as_str(), "list") {
                Token::List
            } else {
                Token::Identifier(w)
            };
            proof {
                assert(tok.deep_view() == classify_ident(s.subrange(i as int, j as int)));
            }
            let ghost tv = tok.deep_view();
            tokens.push(tok);
            proof {
                assert(tokens.deep_view() =~= old_toks.push(tv));
                lemma_scan_shift(old_toks, tv, scan(s.skip(j as int)));
            }
            i = j;
        } else if c >= '0' && c <= '9' {
            let mut j: usize = i;
            while j < v.len() && ((v[j] >= '0' && v[j] <= '9') || v[j] == '.')
                invariant
                    i <= j <= v@.len(),
                    v@ == s,
                    forall|k: int| i <= k < j ==> is_num_char(#[trigger] s[k]),
                decreases v@.len() - j,
            {
                j += 1;
            }
            let ghost t = s.subrange(i as int, j as int);
            proof {
                assert(forall|k: int| 0 <= k < j - i ==> is_num_char(#[trigger] rem[k]));
                lemma_run_end_is(rem, 0, j - i, |ch: char| is_num_char(ch));
                assert(rem.take(j - i) =~= t);
                assert(rem.skip(j - i) =~= s.skip(j as int));
            }
            // split the run into the digits before and after the point
            let mut d: usize = i;
            while d < j && v[d] >= '0' && v[d] <= '9'
                invariant
                    i <= d <= j <= v@.len(),
                    v@ == s,
                    forall|k: int| i <= k < d ==> is_digit_char(#[trigger] s[k]),
                decreases j - d,
            {
                d += 1;
            }
            proof {
                assert(forall|k: int| 0 <= k < d - i ==> is_digit_char(#[trigger] t[k]));
                lemma_run_end_is(t, 0, d - i, |ch: char| is_digit_char(ch));
            }
            let valid: bool;
            let mut d2: usize = j;
            if d == j {
                valid = true;
            } else if v[d] == '.' {
                d2 = d + 1;
                while d2 < j && v[d2] >= '0' && v[d2] <= '9'
                    invariant
                        d + 1 <= d2 <= j <= v@.len(),
                        v@ == s,
                        forall|k: int| d + 1 <= k < d2 ==> is_digit_char(#[trigger] s[k]),
                    decreases j - d2,
                {
                    d2 += 1;
                }
                proof {
                    assert(forall|k: int| d + 1 - i <= k < d2 - i ==> is_digit_char(
                        #[trigger] t[k]));
                    lemma_run_end_is(t, d + 1 - i, d2 - i, |ch: char| is_digit_char(ch));
                }
                valid = d2 == j;
            } else {
                valid = false;
            }
            if valid {
                let frac_lo = if d == j { d } else { d + 1 };
                let n = ShenNumber::from_digit_runs(&v, false, i, d, frac_lo, if d == j { d
                } else { j });
                proof {
                    if d == j {
                        assert(v@.subrange(i as int, d as int) =~= t);
                        assert(v@.subrange(d as int, d as int) =~= Seq::<char>::empty());
                    } else {
                        assert(v@.subrange(i as int, d as int) =~= t.take(d - i));
                        assert(v@.subrange(d as int + 1, j as int) =~= t.subrange(d - i + 1,
                            t.len() as int));
                    }
                    assert(n@ == numeral_num(t, false));
                }
                let ghost tv = TokV::Number(n@);
                tokens.push(Token::Number(n));
                proof {
                    assert(tokens.deep_view() =~= old_toks.push(tv));
                    lemma_scan_shift(old_toks, tv, scan(s.skip(j as int)));
                }
                i = j;
            } else {
                let mut m = String::from_str("Invalid number: ");
                let text = string_from_range(&v, i, j);
                m.append(text.as_str());
                proof {
                    assert(!is_numeral(t));
                    assert(m@ == "Invalid number: "@ + t);
                }
                return Err(m);
            }
        } else if c == '"' {
            let mut j: usize = i + 1;
            while j < v.len() && v[j] != '"'
                invariant
                    i + 1 <= j <= v@.len(),
                    v@ == s,
                    forall|k: int| i + 1 <= k < j ==> s[k] != '"',
                decreases v@.len() - j,
            {
                j += 1;
            }
            proof {
                assert(forall|k: int| 1 <= k < j - i ==> #[trigger] rem[k] != '"');
                lemma_run_end_is(rem, 1, j - i, |ch: char| ch != '"');
                assert(rem.subrange(1, j - i) =~= s.subrange(i as int + 1, j as int));
            }
            let text = string_from_range(&v, i + 1, j);
            let ghost tv = TokV::Literal(s.subrange(i as int + 1, j as int));
            tokens.push(Token::Literal(text));
            proof {
                assert(tokens.deep_view() =~= old_toks.push(tv));
            }
            if j < v.len() {
                proof {
                    assert(rem.skip(j - i + 1) =~= s.skip(j as int + 1));
                    lemma_scan_shift(old_toks, tv, scan(s.skip(j as int + 1)));
                }
                i = j + 1;
            } else {
                proof {
                    lemma_scan_shift(old_toks, tv, Ok(Seq::empty()));
                    assert(tokens.deep_view() + Seq::<TokV>::empty() =~= tokens.deep_view());
                    assert(s.skip(j as int) =~= Seq::<char>::empty());
                }
                i = j;
            }
        } else {
            let mut m = String::from_str("Unexpected character: ");
            push_char(&mut m, c);
            proof {
                assert(m@ =~= "Unexpected character: "@ + seq![c]);
            }
            return Err(m);
        }
    }
    proof {
        assert(s.skip(s.len() as int) =~= Seq::<char>::empty());
        if scan(s) is Ok {
            assert(tokens.deep_view() + Seq::<TokV>::empty() =~= tokens.deep_view());
        }
    }
    Ok(tokens)
}

} // verus!
