//! Pretty-printing back to S-expression form, and the round trip law: the
//! printed form of any tree the parser can produce scans back to exactly
//! that tree's token sequence, which is the token sequence the parser
//! consumed.

use vstd::prelude::*;
use vstd::string::*;

use crate::ast::{NodeV, ShenNode, ShenType, ValueV, node_view, nodes_view, lemma_nodes_view};
use crate::number::NumV;
use crate::parser::token::{TokV, scan, scan_cons, scan_with, classify_ident, is_op_char,
    is_space_char, is_ident_start, is_ident_char, is_num_char};
use crate::parser::{parse_expr_at, parse_form_at, parse_params_at, parse_args_at,
    parse_defun_at, parse_lambda_at, parse_if_at, parse_binop_at, parse_application_at,
    parse_list_at, parse_generic_list_at};
use crate::text::{push_char, run_end, lemma_run_end_bounds, lemma_run_end_is};

verus! {

broadcast use vstd::std_specs::vec::group_vec_axioms, vstd::seq::group_seq_axioms;

/// Identifier-shaped text: it scans as one identifier or keyword token.
pub open spec fn ident_shape(w: Seq<char>) -> bool {
    &&& w.len() > 0
    &&& is_ident_start(w[0])
    &&& forall|i: int| 0 <= i < w.len() ==> is_ident_char(#[trigger] w[i])
}

/// Text that scans as a plain identifier: identifier-shaped and no keyword.
pub open spec fn ident_ok(w: Seq<char>) -> bool {
    ident_shape(w) && classify_ident(w) is Identifier
}

/// Text that scans as one operator token.
pub open spec fn op_ok(w: Seq<char>) -> bool {
    w.len() > 0 && forall|i: int| 0 <= i < w.len() ==> is_op_char(#[trigger] w[i])
}

/// String-literal content: nothing that would close the literal early.
pub open spec fn str_ok(s: Seq<char>) -> bool {
    forall|i: int| 0 <= i < s.len() ==> #[trigger] s[i] != '"'
}

pub open spec fn params_ok(args: Seq<(Seq<char>, ShenType)>) -> bool {
    forall|i: int| 0 <= i < args.len() ==> ident_ok((#[trigger] args[i]).0)
}

/// The trees the parser can produce: every name is a plain identifier,
/// every operator an operator run, every string fit for quoting, every
/// number canonical and nonnegative; literals are floats or strings only.
pub open spec fn wf_print(n: NodeV) -> bool
    decreases n,
{
    match n {
        NodeV::Function { name, args, body, .. } => ident_ok(name) && params_ok(args)
            && wf_print(*body),
        NodeV::Lambda { args, body, .. } => params_ok(args) && wf_print(*body),
        NodeV::Application { func, args } => wf_print(*func) && wf_print_seq(args),
        NodeV::BinaryOperation { operator, left, right, .. } => op_ok(operator) && wf_print(
            *left,
        ) && wf_print(*right),
        NodeV::Conditional { condition, true_branch, false_branch } => wf_print(*condition)
            && wf_print(*true_branch) && (match false_branch {
            Some(f) => wf_print(*f),
            None => true,
        }),
        NodeV::List { elements, .. } => wf_print_seq(elements),
        NodeV::Symbol { name, .. } => ident_ok(name),
        NodeV::Literal { value } => match value {
            ValueV::Float(f) => f.wf() && !f.negative,
            ValueV::Str(s) => str_ok(s),
            _ => false,
        },
        NodeV::Nil => false,
    }
}

pub open spec fn wf_print_seq(s: Seq<NodeV>) -> bool
    decreases s,
{
    if s.len() == 0 {
        true
    } else {
        wf_print(s[0]) && wf_print_seq(s.subrange(1, s.len() as int))
    }
}

/// Parameter names joined by single spaces.
pub open spec fn names_text(args: Seq<(Seq<char>, ShenType)>) -> Seq<char>
    decreases args.len(),
{
    if args.len() == 0 {
        Seq::empty()
    } else if args.len() == 1 {
        args[0].0
    } else {
        args[0].0 + seq![' '] + names_text(args.drop_first())
    }
}

/// Each element printed with a leading space.
pub open spec fn print_args(s: Seq<NodeV>) -> Seq<char>
    decreases s,
{
    if s.len() == 0 {
        Seq::empty()
    } else {
        seq![' '] + print_spec(s[0]) + print_args(s.subrange(1, s.len() as int))
    }
}

/// The canonical S-expression text of a tree.
pub open spec fn print_spec(n: NodeV) -> Seq<char>
    decreases n,
{
    match n {
        NodeV::Function { name, args, body, .. } => seq!['('] + "defun"@ + seq![' '] + name
            + seq![' '] + seq!['('] + names_text(args) + seq![')'] + seq![' '] + print_spec(
            *body,
        ) + seq![')'],
        NodeV::Lambda { args, body, .. } => seq!['('] + "lambda"@ + seq![' '] + seq!['(']
            + names_text(args) + seq![')'] + seq![' '] + print_spec(*body) + seq![')'],
        NodeV::Application { func, args } => seq!['('] + print_spec(*func) + print_args(args)
            + seq![')'],
        NodeV::BinaryOperation { operator, left, right, .. } => seq!['('] + operator + seq![' ']
            + print_spec(*left) + seq![' '] + print_spec(*right) + seq![')'],
        NodeV::Conditional { condition, true_branch, false_branch } => seq!['('] + "if"@
            + seq![' '] + print_spec(*condition) + seq![' '] + print_spec(*true_branch) + (
        match false_branch {
            Some(f) => seq![' '] + print_spec(*f),
            None => Seq::empty(),
        }) + seq![')'],
        NodeV::List { elements, .. } => seq!['('] + "list"@ + print_args(elements) + seq![')'],
        NodeV::Symbol { name, .. } => name,
        NodeV::Literal { value } => match value {
            ValueV::Integer(i) => crate::number::int_dec_seq(i),
            ValueV::Float(f) => f.display_text(),
            ValueV::Str(s) => seq!['"'] + s + seq!['"'],
            ValueV::Boolean(b) => if b {
                "true"@
            } else {
                "false"@
            },
            ValueV::Nil => "nil"@,
        },
        NodeV::Nil => "nil"@,
    }
}

/// The canonical token sequence of a tree: what scanning its printed form
/// yields.
pub open spec fn toks(n: NodeV) -> Seq<TokV>
    decreases n,
{
    match n {
        NodeV::Function { name, args, body, .. } => seq![TokV::OpenParen, TokV::Defun,
            TokV::Identifier(name), TokV::OpenParen] + params_toks(args) + seq![TokV::CloseParen]
            + toks(*body) + seq![TokV::CloseParen],
        NodeV::Lambda { args, body, .. } => seq![TokV::OpenParen, TokV::Lambda, TokV::OpenParen]
            + params_toks(args) + seq![TokV::CloseParen] + toks(*body) + seq![TokV::CloseParen],
        NodeV::Application { func, args } => seq![TokV::OpenParen] + toks(*func) + toks_args(
            args,
        ) + seq![TokV::CloseParen],
        NodeV::BinaryOperation { operator, left, right, .. } => seq![TokV::OpenParen,
            TokV::Operator(operator)] + toks(*left) + toks(*right) + seq![TokV::CloseParen],
        NodeV::Conditional { condition, true_branch, false_branch } => seq![TokV::OpenParen,
            TokV::If] + toks(*condition) + toks(*true_branch) + (match false_branch {
            Some(f) => toks(*f),
            None => Seq::empty(),
        }) + seq![TokV::CloseParen],
        NodeV::List { elements, .. } => seq![TokV::OpenParen, TokV::List] + toks_args(elements)
            + seq![TokV::CloseParen],
        NodeV::Symbol { name, .. } => seq![TokV::Identifier(name)],
        NodeV::Literal { value } => match value {
            ValueV::Integer(i) => seq![
                TokV::Number(crate::number::num_of_int(i)),
            ],
            ValueV::Float(f) => seq![TokV::Number(f)],
            ValueV::Str(s) => seq![TokV::Literal(s)],
            ValueV::Boolean(b) => seq![
                TokV::Identifier(
                    if b {
                        "true"@
                    } else {
                        "false"@
                    },
                ),
            ],
            ValueV::Nil => seq![TokV::Identifier("nil"@)],
        },
        NodeV::Nil => seq![TokV::Identifier("nil"@)],
    }
}

pub open spec fn params_toks(args: Seq<(Seq<char>, ShenType)>) -> Seq<TokV>
    decreases args.len(),
{
    if args.len() == 0 {
        Seq::empty()
    } else {
        seq![TokV::Identifier(args[0].0)] + params_toks(args.drop_first())
    }
}

pub open spec fn toks_args(s: Seq<NodeV>) -> Seq<TokV>
    decreases s,
{
    if s.len() == 0 {
        Seq::empty()
    } else {
        toks(s[0]) + toks_args(s.subrange(1, s.len() as int))
    }
}

/// The text that may follow a printed expression without changing how it
/// scans: nothing, or a space or parenthesis.
pub open spec fn sep_ok(rest: Seq<char>) -> bool {
    rest.len() == 0 || rest[0] == ' ' || rest[0] == '(' || rest[0] == ')'
}

proof fn lemma_cons_with(t: TokV, x: Result<Seq<TokV>, Seq<char>>)
    ensures
        scan_cons(t, x) == scan_with(seq![t], x),
{
}

proof fn lemma_with_with(p1: Seq<TokV>, p2: Seq<TokV>, x: Result<Seq<TokV>, Seq<char>>)
    ensures
        scan_with(p1, scan_with(p2, x)) == scan_with(p1 + p2, x),
{
    match x {
        Ok(ts) => {
            assert(p1 + (p2 + ts) =~= (p1 + p2) + ts);
        },
        Err(_) => {},
    }
}

proof fn lemma_scan_open(rest: Seq<char>)
    ensures
        scan(seq!['('] + rest) == scan_cons(TokV::OpenParen, scan(rest)),
{
    let s = seq!['('] + rest;
    assert(s[0] == '(');
    assert(s.drop_first() =~= rest);
}

proof fn lemma_scan_close(rest: Seq<char>)
    ensures
        scan(seq![')'] + rest) == scan_cons(TokV::CloseParen, scan(rest)),
{
    let s = seq![')'] + rest;
    assert(s[0] == ')');
    assert(s.drop_first() =~= rest);
}

proof fn lemma_scan_space(rest: Seq<char>)
    ensures
        scan(seq![' '] + rest) == scan(rest),
{
    let s = seq![' '] + rest;
    assert(s[0] == ' ');
    assert(s.drop_first() =~= rest);
}

proof fn lemma_scan_word(w: Seq<char>, rest: Seq<char>)
    requires
        ident_shape(w),
        sep_ok(rest),
    ensures
        scan(w + rest) == scan_cons(classify_ident(w), scan(rest)),
{
    let s = w + rest;
    let c = s[0];
    assert(c == w[0]);
    assert(is_ident_start(c));
    assert(!(c == '(' || c == ')' || is_space_char(c) || c == '\\' || c == '\u{03bb}'
        || is_op_char(c)));
    assert(forall|k: int| 0 <= k < w.len() ==> is_ident_char(#[trigger] s[k]));
    if rest.len() > 0 {
        assert(s[w.len() as int] == rest[0]);
        assert(!is_ident_char(s[w.len() as int]));
    }
    lemma_run_end_is(s, 0, w.len() as int, |ch: char| is_ident_char(ch));
    assert(s.take(w.len() as int) =~= w);
    assert(s.skip(w.len() as int) =~= rest);
}

proof fn lemma_scan_op(w: Seq<char>, rest: Seq<char>)
    requires
        op_ok(w),
        sep_ok(rest),
    ensures
        scan(w + rest) == scan_cons(TokV::Operator(w), scan(rest)),
{
    let s = w + rest;
    let c = s[0];
    assert(c == w[0]);
    assert(is_op_char(c));
    assert(!(c == '(' || c == ')' || is_space_char(c) || c == '\\' || c == '\u{03bb}'));
    assert(forall|k: int| 0 <= k < w.len() ==> is_op_char(#[trigger] s[k]));
    if rest.len() > 0 {
        assert(s[w.len() as int] == rest[0]);
        assert(!is_op_char(s[w.len() as int]));
    }
    lemma_run_end_is(s, 0, w.len() as int, |ch: char| is_op_char(ch));
    assert(s.take(w.len() as int) =~= w);
    assert(s.skip(w.len() as int) =~= rest);
}

proof fn lemma_scan_number(f: NumV, rest: Seq<char>)
    requires
        f.wf(),
        !f.negative,
        sep_ok(rest),
    ensures
        scan(f.display_text() + rest) == scan_cons(TokV::Number(f), scan(rest)),
{
    let w = f.display_text();
    let s = w + rest;
    let c = s[0];
    assert(c == f.int_part[0]);
    assert(crate::number::is_digit_char(c));
    assert(!(c == '(' || c == ')' || is_space_char(c) || c == '\\' || c == '\u{03bb}'
        || is_op_char(c) || is_ident_start(c)));
    // the whole printed number is one run of number characters
    assert(forall|k: int| 0 <= k < w.len() ==> is_num_char(#[trigger] w[k])) by {
        if f.frac_part.len() > 0 {
            assert(forall|k: int| 0 <= k < w.len() ==> #[trigger] w[k] == (if k
                < f.int_part.len() {
                f.int_part[k]
            } else if k == f.int_part.len() {
                '.'
            } else {
                f.frac_part[k - f.int_part.len() - 1]
            }));
        }
    }
    assert(forall|k: int| 0 <= k < w.len() ==> is_num_char(#[trigger] s[k]));
    if rest.len() > 0 {
        assert(s[w.len() as int] == rest[0]);
        assert(!is_num_char(s[w.len() as int]));
    }
    lemma_run_end_is(s, 0, w.len() as int, |ch: char| is_num_char(ch));
    assert(s.take(w.len() as int) =~= w);
    assert(s.skip(w.len() as int) =~= rest);
    // the run satisfies the numeral grammar and denotes exactly `f`
    lemma_run_end_is(w, 0, f.int_part.len() as int, |ch: char| crate::number::is_digit_char(ch));
    assert(crate::number::is_numeral(w)) by {
        if f.frac_part.len() > 0 {
            assert(w[f.int_part.len() as int] == '.');
            assert(forall|k: int|
                f.int_part.len() as int + 1 <= k < w.len() ==> crate::number::is_digit_char(
                    #[trigger] w[k]));
            lemma_run_end_is(w, f.int_part.len() as int + 1, w.len() as int,
                |ch: char| crate::number::is_digit_char(ch));
        }
    }
    assert(crate::number::numeral_num(w, false) == f) by {
        if f.frac_part.len() == 0 {
            assert(crate::number::strip_leading_zeros(f.int_part) == f.int_part);
            assert(crate::number::strip_trailing_zeros(Seq::<char>::empty())
                == Seq::<char>::empty());
            assert(crate::number::norm_num(false, w, Seq::empty()) =~= f);
        } else {
            assert(w.take(f.int_part.len() as int) =~= f.int_part);
            assert(w.subrange(f.int_part.len() as int + 1, w.len() as int) =~= f.frac_part);
            assert(crate::number::strip_leading_zeros(f.int_part) == f.int_part);
            assert(crate::number::strip_trailing_zeros(f.frac_part) == f.frac_part);
            assert(!(f.int_part == seq!['0'] && f.frac_part.len() == 0));
            assert(crate::number::norm_num(false, f.int_part, f.frac_part) =~= f);
        }
    }
}

proof fn lemma_scan_string(txt: Seq<char>, rest: Seq<char>)
    requires
        str_ok(txt),
    ensures
        scan(seq!['"'] + txt + seq!['"'] + rest) == scan_cons(TokV::Literal(txt), scan(rest)),
{
    let s = seq!['"'] + txt + seq!['"'] + rest;
    let c = s[0];
    assert(c == '"');
    assert(!(c == '(' || c == ')' || is_space_char(c) || c == '\\' || c == '\u{03bb}'
        || is_op_char(c) || is_ident_start(c) || crate::number::is_digit_char(c)));
    assert(forall|k: int| 1 <= k < 1 + txt.len() ==> #[trigger] s[k] != '"');
    assert(s[1 + txt.len() as int] == '"');
    lemma_run_end_is(s, 1, 1 + txt.len() as int, |ch: char| ch != '"');
    assert(1 + (txt.len() as int) < s.len());
    assert(s.subrange(1, 1 + txt.len() as int) =~= txt);
    assert(s.skip(1 + txt.len() as int + 1) =~= rest);
}

proof fn lemma_cons_as_with(t: TokV, p: Seq<TokV>, x: Result<Seq<TokV>, Seq<char>>)
    ensures
        scan_cons(t, scan_with(p, x)) == scan_with(seq![t] + p, x),
{
    lemma_cons_with(t, scan_with(p, x));
    lemma_with_with(seq![t], p, x);
}

pub(crate) proof fn lemma_keywords()
    ensures
        ident_shape("defun"@),
        ident_shape("lambda"@),
        ident_shape("if"@),
        ident_shape("list"@),
        classify_ident("defun"@) == TokV::Defun,
        classify_ident("lambda"@) == TokV::Lambda,
        classify_ident("if"@) == TokV::If,
        classify_ident("list"@) == TokV::List,
{
    reveal_strlit("defun");
    reveal_strlit("lambda");
    reveal_strlit("fn");
    reveal_strlit("if");
    reveal_strlit("let");
    reveal_strlit("list");
    assert("defun"@.len() == 5);
    assert("lambda"@.len() == 6);
    assert("fn"@.len() == 2);
    assert("if"@.len() == 2);
    assert("let"@.len() == 3);
    assert("list"@.len() == 4);
    assert("if"@[0] == 'i' && "fn"@[0] == 'f');
}

proof fn lemma_scan_names(args: Seq<(Seq<char>, ShenType)>, rest: Seq<char>)
    requires
        params_ok(args),
        rest.len() > 0 && rest[0] == ')',
    ensures
        scan(names_text(args) + rest) == scan_with(params_toks(args), scan(rest)),
    decreases args.len(),
{
    if args.len() == 0 {
        assert(names_text(args) + rest =~= rest);
        match scan(rest) {
            Ok(ts) => {
                assert(Seq::<TokV>::empty() + ts =~= ts);
            },
            Err(_) => {},
        }
    } else if args.len() == 1 {
        lemma_scan_word(args[0].0, rest);
        lemma_cons_with(TokV::Identifier(args[0].0), scan(rest));
        assert(params_toks(args.drop_first()) =~= Seq::<TokV>::empty());
        assert(params_toks(args) =~= seq![TokV::Identifier(args[0].0)]);
    } else {
        let tail = args.drop_first();
        let r2 = names_text(tail) + rest;
        let r1 = seq![' '] + r2;
        assert(names_text(args) + rest =~= args[0].0 + r1);
        lemma_scan_word(args[0].0, r1);
        lemma_scan_space(r2);
        lemma_scan_names(tail, rest);
        lemma_cons_as_with(TokV::Identifier(args[0].0), params_toks(tail), scan(rest));
        assert(params_toks(args) == seq![TokV::Identifier(args[0].0)] + params_toks(tail));
    }
}

proof fn lemma_scan_args(s: Seq<NodeV>, rest: Seq<char>)
    requires
        wf_print_seq(s),
        sep_ok(rest),
    ensures
        scan(print_args(s) + rest) == scan_with(toks_args(s), scan(rest)),
    decreases s,
{
    if s.len() == 0 {
        assert(print_args(s) + rest =~= rest);
        match scan(rest) {
            Ok(ts) => {
                assert(Seq::<TokV>::empty() + ts =~= ts);
            },
            Err(_) => {},
        }
    } else {
        let tail = s.subrange(1, s.len() as int);
        let r2 = print_args(tail) + rest;
        let r1 = print_spec(s[0]) + r2;
        assert(print_args(s) + rest =~= seq![' '] + r1);
        lemma_scan_space(r1);
        assert(sep_ok(r2)) by {
            if tail.len() > 0 {
                assert(print_args(tail)[0] == ' ');
                assert(r2[0] == ' ');
            } else {
                assert(print_args(tail) =~= Seq::<char>::empty());
                assert(r2 =~= rest);
            }
        }
        lemma_scan_print(s[0], r2);
        lemma_scan_args(tail, rest);
        lemma_with_with(toks(s[0]), toks_args(tail), scan(rest));
        assert(toks_args(s) == toks(s[0]) + toks_args(tail));
    }
}

#[verifier::rlimit(100)]
#[verifier::spinoff_prover]
proof fn lemma_sp_function(n: NodeV, rest: Seq<char>)
    requires
        wf_print(n),
        sep_ok(rest),
        n is Function,
    ensures
        scan(print_spec(n) + rest) == scan_with(toks(n), scan(rest)),
    decreases n, 0int,
{
    lemma_keywords();
    let x0 = scan(rest);
    match n {
        NodeV::Function { name, args, body, .. } => {
            let btoks = toks(*body);
            let ptoks = params_toks(args);
            let a10 = seq![')'] + rest;
            let a9 = print_spec(*body) + a10;
            let a8 = seq![' '] + a9;
            let a7 = seq![')'] + a8;
            let a6 = names_text(args) + a7;
            let a5 = seq!['('] + a6;
            let a4 = seq![' '] + a5;
            let a3 = name + a4;
            let a2 = seq![' '] + a3;
            let a1 = "defun"@ + a2;
            assert(print_spec(n) + rest =~= seq!['('] + a1);
            lemma_scan_open(a1);
            lemma_scan_word("defun"@, a2);
            lemma_scan_space(a3);
            lemma_scan_word(name, a4);
            lemma_scan_space(a5);
            lemma_scan_open(a6);
            lemma_scan_names(args, a7);
            lemma_scan_close(a8);
            lemma_scan_space(a9);
            lemma_scan_print(*body, a10);
            lemma_scan_close(rest);
            // fold the chain into one prefixed scan
            lemma_cons_with(TokV::CloseParen, x0);
            lemma_with_with(btoks, seq![TokV::CloseParen], x0);
            let p1 = btoks + seq![TokV::CloseParen];
            lemma_cons_as_with(TokV::CloseParen, p1, x0);
            let p2 = seq![TokV::CloseParen] + p1;
            lemma_with_with(ptoks, p2, x0);
            let p3 = ptoks + p2;
            lemma_cons_as_with(TokV::OpenParen, p3, x0);
            let p4 = seq![TokV::OpenParen] + p3;
            lemma_cons_as_with(TokV::Identifier(name), p4, x0);
            let p5 = seq![TokV::Identifier(name)] + p4;
            lemma_cons_as_with(TokV::Defun, p5, x0);
            let p6 = seq![TokV::Defun] + p5;
            lemma_cons_as_with(TokV::OpenParen, p6, x0);
            let p7 = seq![TokV::OpenParen] + p6;
            assert(toks(n) =~= p7);
        }
        _ => {},
    }
}

#[verifier::rlimit(100)]
#[verifier::spinoff_prover]
proof fn lemma_sp_lambda(n: NodeV, rest: Seq<char>)
    requires
        wf_print(n),
        sep_ok(rest),
        n is Lambda,
    ensures
        scan(print_spec(n) + rest) == scan_with(toks(n), scan(rest)),
    decreases n, 0int,
{
    lemma_keywords();
    let x0 = scan(rest);
    match n {
        NodeV::Lambda { args, body, .. } => {
            let btoks = toks(*body);
            let ptoks = params_toks(args);
            let a8 = seq![')'] + rest;
            let a7 = print_spec(*body) + a8;
            let a6 = seq![' '] + a7;
            let a5 = seq![')'] + a6;
            let a4 = names_text(args) + a5;
            let a3 = seq!['('] + a4;
            let a2 = seq![' '] + a3;
            let a1 = "lambda"@ + a2;
            assert(print_spec(n) + rest =~= seq!['('] + a1);
            lemma_scan_open(a1);
            lemma_scan_word("lambda"@, a2);
            lemma_scan_space(a3);
            lemma_scan_open(a4);
            lemma_scan_names(args, a5);
            lemma_scan_close(a6);
            lemma_scan_space(a7);
            lemma_scan_print(*body, a8);
            lemma_scan_close(rest);
            lemma_cons_with(TokV::CloseParen, x0);
            lemma_with_with(btoks, seq![TokV::CloseParen], x0);
            let p1 = btoks + seq![TokV::CloseParen];
            lemma_cons_as_with(TokV::CloseParen, p1, x0);
            let p2 = seq![TokV::CloseParen] + p1;
            lemma_with_with(ptoks, p2, x0);
            let p3 = ptoks + p2;
            lemma_cons_as_with(TokV::OpenParen, p3, x0);
            let p4 = seq![TokV::OpenParen] + p3;
            lemma_cons_as_with(TokV::Lambda, p4, x0);
            let p5 = seq![TokV::Lambda] + p4;
            lemma_cons_as_with(TokV::OpenParen, p5, x0);
            let p6 = seq![TokV::OpenParen] + p5;
            assert(toks(n) =~= p6);
        }
        _ => {},
    }
}

#[verifier::rlimit(100)]
#[verifier::spinoff_prover]
proof fn lemma_sp_application(n: NodeV, rest: Seq<char>)
    requires
        wf_print(n),
        sep_ok(rest),
        n is Application,
    ensures
        scan(print_spec(n) + rest) == scan_with(toks(n), scan(rest)),
    decreases n, 0int,
{
    lemma_keywords();
    let x0 = scan(rest);
    match n {
        NodeV::Application { func, args } => {
            let a2 = seq![')'] + rest;
            let a1 = print_args(args) + a2;
            let a0 = print_spec(*func) + a1;
            assert(print_spec(n) + rest =~= seq!['('] + a0);
            lemma_scan_open(a0);
            assert(sep_ok(a1)) by {
                if args.len() > 0 {
                    assert(print_args(args)[0] == ' ');
                    assert(a1[0] == ' ');
                } else {
                    assert(print_args(args) =~= Seq::<char>::empty());
                    assert(a1 =~= a2);
                }
            }
            lemma_scan_print(*func, a1);
            lemma_scan_args(args, a2);
            lemma_scan_close(rest);
            lemma_cons_with(TokV::CloseParen, x0);
            lemma_with_with(toks_args(args), seq![TokV::CloseParen], x0);
            let p1 = toks_args(args) + seq![TokV::CloseParen];
            lemma_with_with(toks(*func), p1, x0);
            let p2 = toks(*func) + p1;
            lemma_cons_as_with(TokV::OpenParen, p2, x0);
            let p3 = seq![TokV::OpenParen] + p2;
            assert(toks(n) =~= p3);
        }
        _ => {},
    }
}

#[verifier::rlimit(100)]
#[verifier::spinoff_prover]
proof fn lemma_sp_binop(n: NodeV, rest: Seq<char>)
    requires
        wf_print(n),
        sep_ok(rest),
        n is BinaryOperation,
    ensures
        scan(print_spec(n) + rest) == scan_with(toks(n), scan(rest)),
    decreases n, 0int,
{
    lemma_keywords();
    let x0 = scan(rest);
    match n {
        NodeV::BinaryOperation { operator, left, right, .. } => {
            let a4 = seq![')'] + rest;
            let a3 = print_spec(*right) + a4;
            let a2 = seq![' '] + a3;
            let a1 = print_spec(*left) + a2;
            let a0 = seq![' '] + a1;
            let aop = operator + a0;
            assert(print_spec(n) + rest =~= seq!['('] + aop);
            lemma_scan_open(aop);
            lemma_scan_op(operator, a0);
            lemma_scan_space(a1);
            lemma_scan_print(*left, a2);
            lemma_scan_space(a3);
            lemma_scan_print(*right, a4);
            lemma_scan_close(rest);
            lemma_cons_with(TokV::CloseParen, x0);
            lemma_with_with(toks(*right), seq![TokV::CloseParen], x0);
            let p1 = toks(*right) + seq![TokV::CloseParen];
            lemma_with_with(toks(*left), p1, x0);
            let p2 = toks(*left) + p1;
            lemma_cons_as_with(TokV::Operator(operator), p2, x0);
            let p3 = seq![TokV::Operator(operator)] + p2;
            lemma_cons_as_with(TokV::OpenParen, p3, x0);
            let p4 = seq![TokV::OpenParen] + p3;
            assert(toks(n) =~= p4);
        }
        _ => {},
    }
}

#[verifier::rlimit(100)]
#[verifier::spinoff_prover]
proof fn lemma_sp_conditional(n: NodeV, rest: Seq<char>)
    requires
        wf_print(n),
        sep_ok(rest),
        n is Conditional,
    ensures
        scan(print_spec(n) + rest) == scan_with(toks(n), scan(rest)),
    decreases n, 0int,
{
    lemma_keywords();
    let x0 = scan(rest);
    match n {
        NodeV::Conditional { condition, true_branch, false_branch } => {
            match false_branch {
                None => {
                    let a4 = seq![')'] + rest;
                    let a3 = print_spec(*true_branch) + a4;
                    let a2 = seq![' '] + a3;
                    let a1 = print_spec(*condition) + a2;
                    let a0 = seq![' '] + a1;
                    let akw = "if"@ + a0;
                    assert(print_spec(n) + rest =~= seq!['('] + akw);
                    lemma_scan_open(akw);
                    lemma_scan_word("if"@, a0);
                    lemma_scan_space(a1);
                    lemma_scan_print(*condition, a2);
                    lemma_scan_space(a3);
                    lemma_scan_print(*true_branch, a4);
                    lemma_scan_close(rest);
                    lemma_cons_with(TokV::CloseParen, x0);
                    lemma_with_with(toks(*true_branch), seq![TokV::CloseParen], x0);
                    let p1 = toks(*true_branch) + seq![TokV::CloseParen];
                    lemma_with_with(toks(*condition), p1, x0);
                    let p2 = toks(*condition) + p1;
                    lemma_cons_as_with(TokV::If, p2, x0);
                    let p3 = seq![TokV::If] + p2;
                    lemma_cons_as_with(TokV::OpenParen, p3, x0);
                    let p4 = seq![TokV::OpenParen] + p3;
                    assert(toks(n) =~= p4);
                },
                Some(fb) => {
                    let a6 = seq![')'] + rest;
                    let a5 = print_spec(*fb) + a6;
                    let a4 = seq![' '] + a5;
                    let a3 = print_spec(*true_branch) + a4;
                    let a2 = seq![' '] + a3;
                    let a1 = print_spec(*condition) + a2;
                    let a0 = seq![' '] + a1;
                    let akw = "if"@ + a0;
                    assert(print_spec(n) + rest =~= seq!['('] + akw);
                    lemma_scan_open(akw);
                    lemma_scan_word("if"@, a0);
                    lemma_scan_space(a1);
                    lemma_scan_print(*condition, a2);
                    lemma_scan_space(a3);
                    lemma_scan_print(*true_branch, a4);
                    lemma_scan_space(a5);
                    lemma_scan_print(*fb, a6);
                    lemma_scan_close(rest);
                    lemma_cons_with(TokV::CloseParen, x0);
                    lemma_with_with(toks(*fb), seq![TokV::CloseParen], x0);
                    let p1 = toks(*fb) + seq![TokV::CloseParen];
                    lemma_with_with(toks(*true_branch), p1, x0);
                    let p2 = toks(*true_branch) + p1;
                    lemma_with_with(toks(*condition), p2, x0);
                    let p3 = toks(*condition) + p2;
                    lemma_cons_as_with(TokV::If, p3, x0);
                    let p4 = seq![TokV::If] + p3;
                    lemma_cons_as_with(TokV::OpenParen, p4, x0);
                    let p5 = seq![TokV::OpenParen] + p4;
                    assert(toks(n) =~= p5);
                },
            }
        }
        _ => {},
    }
}

#[verifier::rlimit(100)]
#[verifier::spinoff_prover]
proof fn lemma_sp_list(n: NodeV, rest: Seq<char>)
    requires
        wf_print(n),
        sep_ok(rest),
        n is List,
    ensures
        scan(print_spec(n) + rest) == scan_with(toks(n), scan(rest)),
    decreases n, 0int,
{
    lemma_keywords();
    let x0 = scan(rest);
    match n {
        NodeV::List { elements, .. } => {
            let a2 = seq![')'] + rest;
            let a1 = print_args(elements) + a2;
            let a0 = "list"@ + a1;
            assert(print_spec(n) + rest =~= seq!['('] + a0);
            lemma_scan_open(a0);
            assert(sep_ok(a1)) by {
                if elements.len() > 0 {
                    assert(print_args(elements)[0] == ' ');
                    assert(a1[0] == ' ');
                } else {
                    assert(print_args(elements) =~= Seq::<char>::empty());
                    assert(a1 =~= a2);
                }
            }
            lemma_scan_word("list"@, a1);
            lemma_scan_args(elements, a2);
            lemma_scan_close(rest);
            lemma_cons_with(TokV::CloseParen, x0);
            lemma_with_with(toks_args(elements), seq![TokV::CloseParen], x0);
            let p1 = toks_args(elements) + seq![TokV::CloseParen];
            lemma_cons_as_with(TokV::List, p1, x0);
            let p2 = seq![TokV::List] + p1;
            lemma_cons_as_with(TokV::OpenParen, p2, x0);
            let p3 = seq![TokV::OpenParen] + p2;
            assert(toks(n) =~= p3);
        }
        _ => {},
    }
}

/// Scanning a printed tree followed by separated text yields the tree's
/// canonical tokens followed by the scan of that text.
proof fn lemma_scan_print(n: NodeV, rest: Seq<char>)
    requires
        wf_print(n),
        sep_ok(rest),
    ensures
        scan(print_spec(n) + rest) == scan_with(toks(n), scan(rest)),
    decreases n, 1int,
{
    lemma_keywords();
    let x0 = scan(rest);
    match n {
        NodeV::Symbol { name, .. } => {
            lemma_scan_word(name, rest);
            lemma_cons_with(TokV::Identifier(name), x0);
        },
        NodeV::Literal { value } => {
            match value {
                ValueV::Float(f) => {
                    lemma_scan_number(f, rest);
                    lemma_cons_with(TokV::Number(f), x0);
                },
                ValueV::Str(s) => {
                    assert(print_spec(n) + rest =~= seq!['"'] + s + seq!['"'] + rest);
                    lemma_scan_string(s, rest);
                    lemma_cons_with(TokV::Literal(s), x0);
                },
                _ => {},
            }
        },
        NodeV::Function { .. } => {
            lemma_sp_function(n, rest);
        },
        NodeV::Lambda { .. } => {
            lemma_sp_lambda(n, rest);
        },
        NodeV::Application { .. } => {
            lemma_sp_application(n, rest);
        },
        NodeV::BinaryOperation { .. } => {
            lemma_sp_binop(n, rest);
        },
        NodeV::Conditional { .. } => {
            lemma_sp_conditional(n, rest);
        },
        NodeV::List { .. } => {
            lemma_sp_list(n, rest);
        },
        NodeV::Nil => {},
    }
}

fn names_text_x(args: &Vec<(String, ShenType)>) -> (s: String)
    ensures
        s@ == names_text(args.deep_view()),
{
    let ghost dv = args.deep_view();
    let mut acc = String::new();
    let mut k: usize = args.len();
    proof {
        assert(dv.len() == args@.len());
        assert(dv.skip(dv.len() as int) =~= Seq::<(Seq<char>, ShenType)>::empty());
    }
    while k > 0
        invariant
            k <= args@.len(),
            dv == args.deep_view(),
            dv.len() == args@.len(),
            acc@ == names_text(dv.skip(k as int)),
        decreases k,
    {
        k -= 1;
        proof {
            assert(dv.skip(k as int)[0] == dv[k as int]);
            assert(dv[k as int] == args@[k as int].deep_view());
            assert(dv.skip(k as int).drop_first() =~= dv.skip(k as int + 1));
        }
        let (name, _t) = &args[k];
        let ghost old_acc = acc@;
        let mut t = String::new();
        t.append(name.as_str());
        if k + 1 < args.len() {
            push_char(&mut t, ' ');
            t.append(acc.as_str());
            proof {
                assert(t@ =~= dv[k as int].0 + seq![' '] + old_acc);
            }
        } else {
            proof {
                assert(t@ =~= dv[k as int].0);
            }
        }
        acc = t;
    }
    proof {
        assert(dv.skip(0) =~= dv);
    }
    acc
}

fn print_args_x(s: &Vec<ShenNode>) -> (r: String)
    ensures
        r@ == print_args(nodes_view(s@)),
    decreases s,
{
    let ghost sv = nodes_view(s@);
    proof {
        lemma_nodes_view(s@);
        assert(sv.skip(sv.len() as int) =~= Seq::<NodeV>::empty());
    }
    let mut acc = String::new();
    let mut k: usize = s.len();
    while k > 0
        invariant
            k <= s@.len(),
            sv == nodes_view(s@),
            sv.len() == s@.len(),
            forall|j: int| 0 <= j < s@.len() ==> sv[j] == node_view(#[trigger] s@[j]),
            acc@ == print_args(sv.skip(k as int)),
        decreases k,
    {
        k -= 1;
        let ghost rem = sv.skip(k as int);
        proof {
            assert(rem[0] == sv[k as int]);
            assert(rem.subrange(1, rem.len() as int) =~= sv.skip(k as int + 1));
        }
        let ghost old_acc = acc@;
        let p = to_sexpr(&s[k]);
        let mut t = String::new();
        push_char(&mut t, ' ');
        t.append(p.as_str());
        t.append(acc.as_str());
        proof {
            assert(t@ =~= seq![' '] + print_spec(sv[k as int]) + old_acc);
        }
        acc = t;
    }
    proof {
        assert(sv.skip(0) =~= sv);
    }
    acc
}

/// Pretty-prints a tree back to S-expression source form, exactly as
/// [`print_spec`] states.
pub fn to_sexpr(node: &ShenNode) -> (r: String)
    ensures
        r@ == print_spec(node.deep_view()),
    decreases node,
{
    match node {
        ShenNode::Function { name, args, body, .. } => {
            let b = to_sexpr(body);
            let ns = names_text_x(args);
            let mut s = String::new();
            push_char(&mut s, '(');
            s.append("defun");
            push_char(&mut s, ' ');
            s.append(name.as_str());
            push_char(&mut s, ' ');
            push_char(&mut s, '(');
            s.append(ns.as_str());
            push_char(&mut s, ')');
            push_char(&mut s, ' ');
            s.append(b.as_str());
            push_char(&mut s, ')');
            proof {
                assert(s@ =~= print_spec(node.deep_view()));
            }
            s
        },
        ShenNode::Lambda { args, body, .. } => {
            let b = to_sexpr(body);
            let ns = names_text_x(args);
            let mut s = String::new();
            push_char(&mut s, '(');
            s.append("lambda");
            push_char(&mut s, ' ');
            push_char(&mut s, '(');
            s.append(ns.as_str());
            push_char(&mut s, ')');
            push_char(&mut s, ' ');
            s.append(b.as_str());
            push_char(&mut s, ')');
            proof {
                assert(s@ =~= print_spec(node.deep_view()));
            }
            s
        },
        ShenNode::Application { func, args } => {
            let f = to_sexpr(func);
            let a = print_args_x(args);
            let mut s = String::new();
            push_char(&mut s, '(');
            s.append(f.as_str());
            s.append(a.as_str());
            push_char(&mut s, ')');
            proof {
                assert(s@ =~= print_spec(node.deep_view()));
            }
            s
        },
        ShenNode::BinaryOperation { operator, left, right, .. } => {
            let l = to_sexpr(left);
            let r = to_sexpr(right);
            let mut s = String::new();
            push_char(&mut s, '(');
            s.append(operator.as_str());
            push_char(&mut s, ' ');
            s.append(l.as_str());
            push_char(&mut s, ' ');
            s.append(r.as_str());
            push_char(&mut s, ')');
            proof {
                assert(s@ =~= print_spec(node.deep_view()));
            }
            s
        },
        ShenNode::Conditional { condition, true_branch, false_branch } => {
            let c = to_sexpr(condition);
            let t = to_sexpr(true_branch);
            let mut s = String::new();
            push_char(&mut s, '(');
            s.append("if");
            push_char(&mut s, ' ');
            s.append(c.as_str());
            push_char(&mut s, ' ');
            s.append(t.as_str());
            match false_branch {
                Some(f) => {
                    let fb = to_sexpr(f);
                    push_char(&mut s, ' ');
                    s.append(fb.as_str());
                },
                None => {},
            }
            push_char(&mut s, ')');
            proof {
                assert(s@ =~= print_spec(node.deep_view()));
            }
            s
        },
        ShenNode::List { elements, .. } => {
            let a = print_args_x(elements);
            let mut s = String::new();
            push_char(&mut s, '(');
            s.append("list");
            s.append(a.as_str());
            push_char(&mut s, ')');
            proof {
                assert(s@ =~= print_spec(node.deep_view()));
            }
            s
        },
        ShenNode::Symbol { name, .. } => name.clone(),
        ShenNode::Literal { value } => {
            match value {
                crate::ast::ShenValue::Integer(i) => crate::number::i64_to_string(*i),
                crate::ast::ShenValue::Float(f) => f.display_text(),
                crate::ast::ShenValue::String(text) => {
                    let mut s = String::new();
                    push_char(&mut s, '"');
                    s.append(text.as_str());
                    push_char(&mut s, '"');
                    proof {
                        assert(s@ =~= seq!['"'] + text@ + seq!['"']);
                    }
                    s
                },
                crate::ast::ShenValue::Boolean(b) => {
                    if *b {
                        String::from_str("true")
                    } else {
                        String::from_str("false")
                    }
                },
                crate::ast::ShenValue::Nil => String::from_str("nil"),
            }
        },
        ShenNode::Nil => String::from_str("nil"),
    }
}

/// A token whose payload is shaped the way the scanner produces it.
pub open spec fn tok_wf(t: TokV) -> bool {
    match t {
        TokV::Identifier(w) => ident_ok(w),
        TokV::Operator(w) => op_ok(w),
        TokV::Literal(s) => str_ok(s),
        TokV::Number(f) => f.wf() && !f.negative,
        _ => true,
    }
}

pub open spec fn toks_wf(ts: Seq<TokV>) -> bool {
    forall|i: int| 0 <= i < ts.len() ==> tok_wf(#[trigger] ts[i])
}

proof fn lemma_toks_wf_cons(t: TokV, ts: Seq<TokV>)
    requires
        tok_wf(t),
        toks_wf(ts),
    ensures
        toks_wf(seq![t] + ts),
{
    assert forall|i: int| 0 <= i < ts.len() + 1 implies tok_wf(#[trigger] (seq![t] + ts)[i]) by {
        if i > 0 {
            assert((seq![t] + ts)[i] == ts[i - 1]);
        }
    }
}

/// Every token the scanner produces is well shaped.
proof fn lemma_scan_wf(s: Seq<char>)
    ensures
        scan(s) matches Ok(ts) ==> toks_wf(ts),
    decreases s.len(),
{
    if s.len() == 0 {
        assert(toks_wf(Seq::<TokV>::empty()));
    } else {
        let c = s[0];
        if c == '(' || c == ')' || is_space_char(c) || c == '\\' || c == '\u{03bb}' {
            lemma_scan_wf(s.drop_first());
            match scan(s.drop_first()) {
                Ok(ts) => {
                    if c == '(' {
                        lemma_toks_wf_cons(TokV::OpenParen, ts);
                    } else if c == ')' {
                        lemma_toks_wf_cons(TokV::CloseParen, ts);
                    } else if c == '\\' || c == '\u{03bb}' {
                        lemma_toks_wf_cons(TokV::Lambda, ts);
                    }
                },
                Err(_) => {},
            }
        } else if is_op_char(c) {
            let e = run_end(s, 0, |ch: char| is_op_char(ch));
            lemma_run_end_bounds(s, 0, |ch: char| is_op_char(ch));
            assert(e >= 1);
            lemma_scan_wf(s.skip(e));
            assert(op_ok(s.take(e))) by {
                assert(forall|k: int| 0 <= k < e ==> s.take(e)[k] == #[trigger] s[k]);
            }
            match scan(s.skip(e)) {
                Ok(ts) => {
                    lemma_toks_wf_cons(TokV::Operator(s.take(e)), ts);
                },
                Err(_) => {},
            }
        } else if is_ident_start(c) {
            let e = run_end(s, 0, |ch: char| is_ident_char(ch));
            lemma_run_end_bounds(s, 0, |ch: char| is_ident_char(ch));
            assert(e >= 1);
            lemma_scan_wf(s.skip(e));
            let w = s.take(e);
            assert(ident_shape(w)) by {
                assert(forall|k: int| 0 <= k < e ==> w[k] == #[trigger] s[k]);
            }
            assert(tok_wf(classify_ident(w)));
            match scan(s.skip(e)) {
                Ok(ts) => {
                    lemma_toks_wf_cons(classify_ident(w), ts);
                },
                Err(_) => {},
            }
        } else if crate::number::is_digit_char(c) {
            let e = run_end(s, 0, |ch: char| is_num_char(ch));
            lemma_run_end_bounds(s, 0, |ch: char| is_num_char(ch));
            assert(e >= 1);
            if crate::number::is_numeral(s.take(e)) {
                lemma_scan_wf(s.skip(e));
                crate::number::lemma_numeral_num_wf(s.take(e), false);
                match scan(s.skip(e)) {
                    Ok(ts) => {
                        lemma_toks_wf_cons(
                            TokV::Number(crate::number::numeral_num(s.take(e), false)), ts);
                    },
                    Err(_) => {},
                }
            }
        } else if c == '"' {
            let e = run_end(s, 1, |ch: char| ch != '"');
            lemma_run_end_bounds(s, 1, |ch: char| ch != '"');
            assert(str_ok(s.subrange(1, e))) by {
                assert(forall|k: int| 0 <= k < e - 1 ==> s.subrange(1, e)[k] == #[trigger] s[k
                    + 1]);
            }
            if e == s.len() {
                lemma_toks_wf_cons(TokV::Literal(s.subrange(1, e)), Seq::empty());
                assert(toks_wf(Seq::<TokV>::empty()));
            } else {
                lemma_scan_wf(s.skip(e + 1));
                match scan(s.skip(e + 1)) {
                    Ok(ts) => {
                        lemma_toks_wf_cons(TokV::Literal(s.subrange(1, e)), ts);
                    },
                    Err(_) => {},
                }
            }
        }
    }
}

/// Token sequences in which every parenthesized group opens with a keyword,
/// an operator, an identifier or a nested group — the grammar of the
/// surface syntax, which leaves out the plain-list fallback.
pub open spec fn keyword_headed(t: Seq<TokV>) -> bool {
    forall|i: int|
        0 <= i < t.len() - 1 && (#[trigger] t[i]) is OpenParen ==> (t[i + 1] is Defun || t[i
            + 1] is Lambda || t[i + 1] is If || t[i + 1] is List || t[i + 1] is Operator || t[i
            + 1] is Identifier || t[i + 1] is OpenParen)
}

/// Round trip, print side: the printed form of any parser-producible tree
/// scans back to exactly that tree's token sequence.
pub proof fn lemma_print_scan_round_trip(n: NodeV)
    requires
        wf_print(n),
    ensures
        scan(print_spec(n)) == Ok::<Seq<TokV>, Seq<char>>(toks(n)),
{
    lemma_scan_print(n, Seq::empty());
    assert(print_spec(n) + Seq::<char>::empty() =~= print_spec(n));
    assert(toks(n) + Seq::<TokV>::empty() =~= toks(n));
}

proof fn lemma_rt_expr(t: Seq<TokV>, i: int, d: nat)
    requires
        toks_wf(t),
        0 <= i <= t.len(),
    ensures
        ({
            match parse_expr_at(t, i, d) {
                Ok((n, j)) => i < j <= t.len() && wf_print(n) && (keyword_headed(t) ==> toks(n)
                    == t.subrange(i, j)),
                Err(_) => true,
            }
        }),
    decreases d, t.len() - i, 1int,
{
    if i < t.len() {
        match t[i] {
            TokV::Identifier(name) => {
                assert(tok_wf(t[i]));
                assert(toks(NodeV::Symbol { name, type_hint: ShenType::Symbol }) =~= t.subrange(
                    i, i + 1));
            },
            TokV::Number(f) => {
                assert(tok_wf(t[i]));
                assert(toks(NodeV::Literal { value: ValueV::Float(f) }) =~= t.subrange(i, i
                    + 1));
            },
            TokV::Literal(sv) => {
                assert(tok_wf(t[i]));
                assert(toks(NodeV::Literal { value: ValueV::Str(sv) }) =~= t.subrange(i, i
                    + 1));
            },
            TokV::OpenParen => {
                lemma_rt_form(t, i, d);
            },
            _ => {},
        }
    }
}

proof fn lemma_rt_form(t: Seq<TokV>, i: int, d: nat)
    requires
        toks_wf(t),
        0 <= i < t.len(),
        t[i] is OpenParen,
    ensures
        ({
            match parse_form_at(t, i, d) {
                Ok((n, j)) => i < j <= t.len() && wf_print(n) && (keyword_headed(t) ==> toks(n)
                    == t.subrange(i, j)),
                Err(_) => true,
            }
        }),
    decreases d, t.len() - i, 0int,
{
    if d > 0 && i + 1 < t.len() {
        match t[i + 1] {
            TokV::Defun => lemma_rt_defun(t, i, (d - 1) as nat),
            TokV::Lambda => lemma_rt_lambda(t, i, (d - 1) as nat),
            TokV::If => lemma_rt_if(t, i, (d - 1) as nat),
            TokV::List => lemma_rt_list(t, i, (d - 1) as nat),
            TokV::Operator(_) => lemma_rt_binop(t, i, (d - 1) as nat),
            TokV::Identifier(_) => lemma_rt_application(t, i, (d - 1) as nat),
            TokV::OpenParen => lemma_rt_application(t, i, (d - 1) as nat),
            _ => {
                lemma_rt_generic(t, i, (d - 1) as nat);
            },
        }
    }
}

proof fn lemma_rt_generic(t: Seq<TokV>, i: int, d: nat)
    requires
        toks_wf(t),
        0 <= i <= t.len() - 2,
        t[i] is OpenParen,
        !(t[i + 1] is Defun || t[i + 1] is Lambda || t[i + 1] is If || t[i + 1] is List || t[i
            + 1] is Operator || t[i + 1] is Identifier || t[i + 1] is OpenParen),
    ensures
        ({
            match parse_generic_list_at(t, i, d) {
                Ok((n, j)) => i < j <= t.len() && wf_print(n) && (keyword_headed(t) ==> toks(n)
                    == t.subrange(i, j)),
                Err(_) => true,
            }
        }),
    decreases d, t.len() - i, 3int,
{
    lemma_rt_args(t, i + 1, d, crate::parser::FormKind::List);
    assert(!keyword_headed(t)) by {
        assert(t[i] is OpenParen);
    }
}

proof fn lemma_rt_params(t: Seq<TokV>, j: int, form: crate::parser::FormKind)
    requires
        toks_wf(t),
        0 <= j <= t.len(),
    ensures
        ({
            match parse_params_at(t, j, form) {
                Ok((ps, k)) => j < k <= t.len() && params_ok(ps) && t[k - 1] is CloseParen
                    && params_toks(ps) == t.subrange(j, k - 1),
                Err(_) => true,
            }
        }),
    decreases t.len() - j,
{
    if j < t.len() {
        match t[j] {
            TokV::CloseParen => {
                assert(params_toks(Seq::<(Seq<char>, ShenType)>::empty()) =~= t.subrange(j, j));
            },
            TokV::Identifier(name) => {
                lemma_rt_params(t, j + 1, form);
                match parse_params_at(t, j + 1, form) {
                    Ok((ps, k)) => {
                        let full = seq![(name, ShenType::Symbol)] + ps;
                        assert(tok_wf(t[j]));
                        assert(params_ok(full)) by {
                            assert(forall|q: int|
                                0 <= q < ps.len() ==> full[q + 1] == #[trigger] ps[q]);
                            assert(full[0].0 == name);
                        }
                        assert(params_toks(full) =~= t.subrange(j, k - 1)) by {
                            assert(params_toks(full) == seq![TokV::Identifier(name)]
                                + params_toks(ps)) by {
                                assert(full.drop_first() =~= ps);
                            }
                            assert(params_toks(ps) == t.subrange(j + 1, k - 1));
                        }
                    },
                    Err(_) => {},
                }
            },
            _ => {},
        }
    }
}

proof fn lemma_rt_args(t: Seq<TokV>, k: int, d: nat, form: crate::parser::FormKind)
    requires
        toks_wf(t),
        0 <= k <= t.len(),
    ensures
        ({
            match parse_args_at(t, k, d, form) {
                Ok((ns, m)) => k < m <= t.len() && wf_print_seq(ns) && t[m - 1] is CloseParen
                    && (keyword_headed(t) ==> toks_args(ns) == t.subrange(k, m - 1)),
                Err(_) => true,
            }
        }),
    decreases d, t.len() - k, 2int,
{
    if k < t.len() {
        if t[k] is CloseParen {
            assert(toks_args(Seq::<NodeV>::empty()) =~= t.subrange(k, k));
        } else {
            lemma_rt_expr(t, k, d);
            match parse_expr_at(t, k, d) {
                Ok((n, j)) => {
                    let j2 = if k < j <= t.len() {
                        j
                    } else {
                        k + 1
                    };
                    lemma_rt_args(t, j2, d, form);
                    match parse_args_at(t, j2, d, form) {
                        Ok((ns, m)) => {
                            let full = seq![n] + ns;
                            assert(wf_print_seq(full)) by {
                                assert(full.subrange(1, full.len() as int) =~= ns);
                            }
                            if keyword_headed(t) {
                                assert(toks_args(full) =~= t.subrange(k, m - 1)) by {
                                    assert(toks_args(full) == toks(n) + toks_args(ns)) by {
                                        assert(full.subrange(1, full.len() as int) =~= ns);
                                    }
                                    assert(toks(n) == t.subrange(k, j));
                                    assert(toks_args(ns) == t.subrange(j, m - 1));
                                }
                            }
                        },
                        Err(_) => {},
                    }
                },
                Err(_) => {},
            }
        }
    }
}

proof fn lemma_rt_defun(t: Seq<TokV>, i: int, d: nat)
    requires
        toks_wf(t),
        0 <= i <= t.len() - 2,
        t[i] is OpenParen,
        t[i + 1] is Defun,
    ensures
        ({
            match parse_defun_at(t, i, d) {
                Ok((n, j)) => i < j <= t.len() && wf_print(n) && (keyword_headed(t) ==> toks(n)
                    == t.subrange(i, j)),
                Err(_) => true,
            }
        }),
    decreases d, t.len() - i, 3int,
{
    if i + 2 < t.len() && t[i + 2] is Identifier && i + 3 < t.len() && t[i + 3] is OpenParen {
        let name = t[i + 2]->Identifier_0;
        lemma_rt_params(t, i + 4, crate::parser::FormKind::Defun);
        match parse_params_at(t, i + 4, crate::parser::FormKind::Defun) {
            Ok((params, jp)) => {
                lemma_rt_expr(t, jp, d);
                match parse_expr_at(t, jp, d) {
                    Ok((body, k)) => {
                        if 0 <= k < t.len() && t[k] is CloseParen {
                            let node = NodeV::Function {
                                name,
                                args: params,
                                return_type: ShenType::Symbol,
                                body: Box::new(body),
                            };
                            assert(tok_wf(t[i + 2]));
                            if keyword_headed(t) {
                                assert(toks(node) =~= t.subrange(i, k + 1));
                            }
                        }
                    },
                    Err(_) => {},
                }
            },
            Err(_) => {},
        }
    }
}

proof fn lemma_rt_lambda(t: Seq<TokV>, i: int, d: nat)
    requires
        toks_wf(t),
        0 <= i <= t.len() - 2,
        t[i] is OpenParen,
        t[i + 1] is Lambda,
    ensures
        ({
            match parse_lambda_at(t, i, d) {
                Ok((n, j)) => i < j <= t.len() && wf_print(n) && (keyword_headed(t) ==> toks(n)
                    == t.subrange(i, j)),
                Err(_) => true,
            }
        }),
    decreases d, t.len() - i, 3int,
{
    if i + 2 < t.len() && t[i + 2] is OpenParen {
        lemma_rt_params(t, i + 3, crate::parser::FormKind::Lambda);
        match parse_params_at(t, i + 3, crate::parser::FormKind::Lambda) {
            Ok((params, jp)) => {
                lemma_rt_expr(t, jp, d);
                match parse_expr_at(t, jp, d) {
                    Ok((body, k)) => {
                        if 0 <= k < t.len() && t[k] is CloseParen {
                            let node = NodeV::Lambda {
                                args: params,
                                return_type: ShenType::Symbol,
                                body: Box::new(body),
                            };
                            if keyword_headed(t) {
                                assert(toks(node) =~= t.subrange(i, k + 1));
                            }
                        }
                    },
                    Err(_) => {},
                }
            },
            Err(_) => {},
        }
    }
}

#[verifier::rlimit(100)]
#[verifier::spinoff_prover]
proof fn lemma_rt_if(t: Seq<TokV>, i: int, d: nat)
    requires
        toks_wf(t),
        0 <= i <= t.len() - 2,
        t[i] is OpenParen,
        t[i + 1] is If,
    ensures
        ({
            match parse_if_at(t, i, d) {
                Ok((n, j)) => i < j <= t.len() && wf_print(n) && (keyword_headed(t) ==> toks(n)
                    == t.subrange(i, j)),
                Err(_) => true,
            }
        }),
    decreases d, t.len() - i, 3int,
{
    lemma_rt_expr(t, i + 2, d);
    match parse_expr_at(t, i + 2, d) {
        Ok((cond, k1)) => {
            lemma_rt_expr(t, k1, d);
            match parse_expr_at(t, k1, d) {
                Ok((tb, k2)) => {
                    if 0 <= k2 < t.len() && t[k2] is CloseParen {
                        let node = NodeV::Conditional {
                            condition: Box::new(cond),
                            true_branch: Box::new(tb),
                            false_branch: None,
                        };
                        if keyword_headed(t) {
                            assert(toks(node) =~= t.subrange(i, k2 + 1));
                        }
                    } else {
                        lemma_rt_expr(t, k2, d);
                        match parse_expr_at(t, k2, d) {
                            Ok((fb, k3)) => {
                                if 0 <= k3 < t.len() && t[k3] is CloseParen {
                                    let node = NodeV::Conditional {
                                        condition: Box::new(cond),
                                        true_branch: Box::new(tb),
                                        false_branch: Some(Box::new(fb)),
                                    };
                                    if keyword_headed(t) {
                                        assert(toks(node) =~= t.subrange(i, k3 + 1));
                                    }
                                }
                            },
                            Err(_) => {},
                        }
                    }
                },
                Err(_) => {},
            }
        },
        Err(_) => {},
    }
}

proof fn lemma_rt_binop(t: Seq<TokV>, i: int, d: nat)
    requires
        toks_wf(t),
        0 <= i <= t.len() - 2,
        t[i] is OpenParen,
        t[i + 1] is Operator,
    ensures
        ({
            match parse_binop_at(t, i, d) {
                Ok((n, j)) => i < j <= t.len() && wf_print(n) && (keyword_headed(t) ==> toks(n)
                    == t.subrange(i, j)),
                Err(_) => true,
            }
        }),
    decreases d, t.len() - i, 3int,
{
    lemma_rt_expr(t, i + 2, d);
    match parse_expr_at(t, i + 2, d) {
        Ok((l, k1)) => {
            lemma_rt_expr(t, k1, d);
            match parse_expr_at(t, k1, d) {
                Ok((r, k2)) => {
                    if 0 <= k2 < t.len() && t[k2] is CloseParen {
                        let node = NodeV::BinaryOperation {
                            operator: t[i + 1]->Operator_0,
                            left: Box::new(l),
                            right: Box::new(r),
                            result_type: ShenType::Symbol,
                        };
                        assert(tok_wf(t[i + 1]));
                        if keyword_headed(t) {
                            assert(toks(node) =~= t.subrange(i, k2 + 1));
                        }
                    }
                },
                Err(_) => {},
            }
        },
        Err(_) => {},
    }
}

proof fn lemma_rt_application(t: Seq<TokV>, i: int, d: nat)
    requires
        toks_wf(t),
        0 <= i <= t.len() - 2,
        t[i] is OpenParen,
        t[i + 1] is Identifier || t[i + 1] is OpenParen,
    ensures
        ({
            match parse_application_at(t, i, d) {
                Ok((n, j)) => i < j <= t.len() && wf_print(n) && (keyword_headed(t) ==> toks(n)
                    == t.subrange(i, j)),
                Err(_) => true,
            }
        }),
    decreases d, t.len() - i, 3int,
{
    if t[i + 1] is Identifier {
        assert(tok_wf(t[i + 1]));
    } else {
        lemma_rt_form(t, i + 1, d);
    }
    let func_step: crate::parser::Step = if t[i + 1] is Identifier {
        Ok((NodeV::Symbol { name: t[i + 1]->Identifier_0, type_hint: ShenType::Symbol }, i + 2))
    } else {
        parse_form_at(t, i + 1, d)
    };
    match func_step {
        Ok((func, j)) => {
            assert(wf_print(func));
            if keyword_headed(t) {
                assert(toks(func) == t.subrange(i + 1, j)) by {
                    if t[i + 1] is Identifier {
                        assert(toks(func) =~= t.subrange(i + 1, i + 2));
                    }
                }
            }
            let j2 = if i + 2 <= j <= t.len() {
                j
            } else {
                i + 2
            };
            lemma_rt_args(t, j2, d, crate::parser::FormKind::Application);
            match parse_args_at(t, j2, d, crate::parser::FormKind::Application) {
                Ok((args, k)) => {
                    let node = NodeV::Application { func: Box::new(func), args };
                    if keyword_headed(t) {
                        assert(toks(node) =~= t.subrange(i, k));
                    }
                },
                Err(_) => {},
            }
        },
        Err(_) => {},
    }
}

proof fn lemma_rt_list(t: Seq<TokV>, i: int, d: nat)
    requires
        toks_wf(t),
        0 <= i <= t.len() - 2,
        t[i] is OpenParen,
        t[i + 1] is List,
    ensures
        ({
            match parse_list_at(t, i, d) {
                Ok((n, j)) => i < j <= t.len() && wf_print(n) && (keyword_headed(t) ==> toks(n)
                    == t.subrange(i, j)),
                Err(_) => true,
            }
        }),
    decreases d, t.len() - i, 3int,
{
    lemma_rt_args(t, i + 2, d, crate::parser::FormKind::List);
    match parse_args_at(t, i + 2, d, crate::parser::FormKind::List) {
        Ok((elems, k)) => {
            let node = NodeV::List { elements: elems, element_type: ShenType::Symbol };
            if keyword_headed(t) {
                assert(toks(node) =~= t.subrange(i, k));
            }
        },
        Err(_) => {},
    }
}

/// Round trip: when the scanner accepts a source text whose parenthesized
/// groups all open with a keyword, an operator, an identifier or a nested
/// group, and the parser accepts the tokens, then the parsed tree's
/// pretty-printed S-expression form scans back to exactly the tokens the
/// parser consumed.
pub proof fn lemma_parse_print_round_trip(source: Seq<char>)
    ensures
        ({
            match scan(source) {
                Ok(ts) => match parse_expr_at(ts, 0, crate::parser::MAX_NESTING_DEPTH as nat) {
                    Ok((n, j)) => keyword_headed(ts) ==> scan(print_spec(n)) == Ok::<
                        Seq<TokV>,
                        Seq<char>,
                    >(ts.subrange(0, j)),
                    Err(_) => true,
                },
                Err(_) => true,
            }
        }),
{
    lemma_scan_wf(source);
    match scan(source) {
        Ok(ts) => {
            lemma_rt_expr(ts, 0, crate::parser::MAX_NESTING_DEPTH as nat);
            match parse_expr_at(ts, 0, crate::parser::MAX_NESTING_DEPTH as nat) {
                Ok((n, j)) => {
                    lemma_print_scan_round_trip(n);
                },
                Err(_) => {},
            }
        },
        Err(_) => {},
    }
}

/// Every tree the parser accepts from scanned source is parser-producible:
/// its names are identifiers, its operators operator runs, its numbers
/// canonical, its strings quotable.
pub proof fn lemma_parse_output_wf(source: Seq<char>)
    ensures
        ({
            match scan(source) {
                Ok(ts) => match parse_expr_at(ts, 0, crate::parser::MAX_NESTING_DEPTH as nat) {
                    Ok((n, j)) => wf_print(n),
                    Err(_) => true,
                },
                Err(_) => true,
            }
        }),
{
    lemma_scan_wf(source);
    match scan(source) {
        Ok(ts) => {
            lemma_rt_expr(ts, 0, crate::parser::MAX_NESTING_DEPTH as nat);
        },
        Err(_) => {},
    }
}

} // verus!
