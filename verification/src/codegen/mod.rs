//! Syntax-directed code emission: walks the typed tree and renders source
//! text of the statically typed imperative target, exactly as [`emit_spec`]
//! states it. Emission is total over every tree the parser can produce;
//! only an `if` written as an application with the wrong number of
//! arguments is refused.

use vstd::prelude::*;
use vstd::string::*;

use crate::ast::{NodeV, ShenNode, ShenType, ShenValue, ValueV, node_view, nodes_view,
    lemma_nodes_view};
use crate::error::{ErrV, TranspilerError};
use crate::number::{int_dec_seq, i64_to_string};
use crate::text::{push_char, str_eq};

verus! {

broadcast use vstd::std_specs::vec::group_vec_axioms, vstd::seq::group_seq_axioms;

/// The parameter list of a function header: each argument is typed with the
/// target's clonable placeholder.
pub open spec fn params_text(args: Seq<(Seq<char>, ShenType)>) -> Seq<char>
    decreases args.len(),
{
    if args.len() == 0 {
        Seq::empty()
    } else if args.len() == 1 {
        args[0].0 + ": impl Clone"@
    } else {
        args[0].0 + ": impl Clone, "@ + params_text(args.drop_first())
    }
}

/// The parameter list of a closure literal: bare names.
pub open spec fn closure_params_text(args: Seq<(Seq<char>, ShenType)>) -> Seq<char>
    decreases args.len(),
{
    if args.len() == 0 {
        Seq::empty()
    } else if args.len() == 1 {
        args[0].0
    } else {
        args[0].0 + ", "@ + closure_params_text(args.drop_first())
    }
}

/// The text of a literal: integers and floats in decimal (a float always
/// with a point), strings quoted verbatim, booleans and nil as the target
/// spells them.
pub open spec fn literal_text(v: ValueV) -> Seq<char> {
    match v {
        ValueV::Integer(i) => int_dec_seq(i),
        ValueV::Float(f) => f.float_text(),
        ValueV::Str(s) => seq!['"'] + s + seq!['"'],
        ValueV::Boolean(b) => if b {
            "true"@
        } else {
            "false"@
        },
        ValueV::Nil => "None"@,
    }
}

/// The target text of a tree, or the message of the one fault emission can
/// hit. This is the exact specification [`generate_rust_code`] is proved
/// against.
pub open spec fn emit_spec(n: NodeV) -> Result<Seq<char>, Seq<char>>
    decreases n,
{
    match n {
        NodeV::Function { name, args, return_type, body } => match emit_spec(*body) {
            Err(e) => Err(e),
            Ok(b) => Ok(
                "fn "@ + name + "("@ + params_text(args) + ") -> impl Clone {\n    "@ + b
                    + "\n}"@,
            ),
        },
        NodeV::Symbol { name, .. } => Ok(name),
        NodeV::Nil => Ok("None"@),
        NodeV::Application { func, args } => match emit_spec(*func) {
            Err(e) => Err(e),
            Ok(f) => {
                if f == "length"@ && args.len() == 1 {
                    match emit_spec(args[0]) {
                        Err(e) => Err(e),
                        Ok(a) => Ok(a + ".len()"@),
                    }
                } else if f == "first"@ && args.len() == 1 {
                    match emit_spec(args[0]) {
                        Err(e) => Err(e),
                        Ok(a) => Ok(a + ".first()"@),
                    }
                } else if f == "if"@ {
                    if args.len() == 3 {
                        match emit_spec(args[0]) {
                            Err(e) => Err(e),
                            Ok(c) => match emit_spec(args[1]) {
                                Err(e) => Err(e),
                                Ok(t) => match emit_spec(args[2]) {
                                    Err(e) => Err(e),
                                    Ok(fb) => Ok(
                                        "if "@ + c + " { "@ + t + " } else { "@ + fb + " }"@,
                                    ),
                                },
                            },
                        }
                    } else {
                        Err("Invalid 'if' expression"@)
                    }
                } else {
                    match emit_args(args) {
                        Err(e) => Err(e),
                        Ok(a) => Ok(f + "("@ + a + ")"@),
                    }
                }
            },
        },
        NodeV::BinaryOperation { operator, left, right, .. } => match emit_spec(*left) {
            Err(e) => Err(e),
            Ok(l) => match emit_spec(*right) {
                Err(e) => Err(e),
                Ok(r) => {
                    let op = if operator == "="@ {
                        "=="@
                    } else {
                        operator
                    };
                    Ok(l + " "@ + op + " "@ + r)
                },
            },
        },
        NodeV::Conditional { condition, true_branch, false_branch } => match emit_spec(
            *condition,
        ) {
            Err(e) => Err(e),
            Ok(c) => match emit_spec(*true_branch) {
                Err(e) => Err(e),
                Ok(t) => match false_branch {
                    Some(f) => match emit_spec(*f) {
                        Err(e) => Err(e),
                        Ok(fb) => Ok(
                            "if "@ + c + " {\n        "@ + t + "\n    } else {\n        "@ + fb
                                + "\n    }"@,
                        ),
                    },
                    None => Ok("if "@ + c + " {\n        "@ + t + "\n    } else {}"@),
                },
            },
        },
        NodeV::Lambda { args, body, .. } => match emit_spec(*body) {
            Err(e) => Err(e),
            Ok(b) => Ok("|"@ + closure_params_text(args) + "| { "@ + b + " }"@),
        },
        NodeV::List { elements, .. } => match emit_args(elements) {
            Err(e) => Err(e),
            Ok(a) => Ok("vec!["@ + a + "]"@),
        },
        NodeV::Literal { value } => Ok(literal_text(value)),
    }
}

/// Emits a sequence of expressions joined by `", "`, stopping at the first
/// fault.
pub open spec fn emit_args(s: Seq<NodeV>) -> Result<Seq<char>, Seq<char>>
    decreases s,
{
    if s.len() == 0 {
        Ok(Seq::empty())
    } else {
        match emit_spec(s[0]) {
            Err(e) => Err(e),
            Ok(h) => match emit_args(s.subrange(1, s.len() as int)) {
                Err(e) => Err(e),
                Ok(t) => Ok(
                    if s.len() == 1 {
                        h
                    } else {
                        h + ", "@ + t
                    },
                ),
            },
        }
    }
}

/// Trees on which emission cannot fail: every `if` written as an
/// application carries exactly three arguments. Every tree the parser
/// builds is of this kind, since the scanner never yields `if` as a plain
/// identifier.
pub open spec fn emit_clean(n: NodeV) -> bool
    decreases n,
{
    match n {
        NodeV::Function { body, .. } => emit_clean(*body),
        NodeV::Lambda { body, .. } => emit_clean(*body),
        NodeV::Application { func, args } => emit_clean(*func) && args_emit_clean(args) && !(
        emit_spec(*func) == Ok::<Seq<char>, Seq<char>>("if"@) && args.len() != 3),
        NodeV::Conditional { condition, true_branch, false_branch } => emit_clean(*condition)
            && emit_clean(*true_branch) && (match false_branch {
            Some(f) => emit_clean(*f),
            None => true,
        }),
        NodeV::BinaryOperation { left, right, .. } => emit_clean(*left) && emit_clean(*right),
        NodeV::List { elements, .. } => args_emit_clean(elements),
        _ => true,
    }
}

pub open spec fn args_emit_clean(s: Seq<NodeV>) -> bool
    decreases s,
{
    if s.len() == 0 {
        true
    } else {
        emit_clean(s[0]) && args_emit_clean(s.subrange(1, s.len() as int))
    }
}

proof fn lemma_args_clean_index(s: Seq<NodeV>, i: int)
    requires
        args_emit_clean(s),
        0 <= i < s.len(),
    ensures
        emit_clean(s[i]),
    decreases s.len(),
{
    if i > 0 {
        lemma_args_clean_index(s.subrange(1, s.len() as int), i - 1);
        assert(s.subrange(1, s.len() as int)[i - 1] == s[i]);
    }
}

/// Emission is total over the tree forms the language has: on a clean tree
/// it always succeeds.
pub proof fn lemma_emit_total(n: NodeV)
    requires
        emit_clean(n),
    ensures
        emit_spec(n) is Ok,
    decreases n,
{
    match n {
        NodeV::Function { body, .. } => {
            lemma_emit_total(*body);
        },
        NodeV::Lambda { body, .. } => {
            lemma_emit_total(*body);
        },
        NodeV::Application { func, args } => {
            lemma_emit_total(*func);
            let f = emit_spec(*func)->Ok_0;
            if (f == "length"@ && args.len() == 1) || (f == "first"@ && args.len() == 1) {
                lemma_args_clean_index(args, 0);
                lemma_emit_total(args[0]);
            } else if f == "if"@ {
                lemma_args_clean_index(args, 0);
                lemma_emit_total(args[0]);
                lemma_args_clean_index(args, 1);
                lemma_emit_total(args[1]);
                lemma_args_clean_index(args, 2);
                lemma_emit_total(args[2]);
            } else {
                lemma_emit_args_total(args);
            }
        },
        NodeV::Conditional { condition, true_branch, false_branch } => {
            lemma_emit_total(*condition);
            lemma_emit_total(*true_branch);
            match false_branch {
                Some(f) => {
                    lemma_emit_total(*f);
                },
                None => {},
            }
        },
        NodeV::BinaryOperation { left, right, .. } => {
            lemma_emit_total(*left);
            lemma_emit_total(*right);
        },
        NodeV::List { elements, .. } => {
            lemma_emit_args_total(elements);
        },
        _ => {},
    }
}

proof fn lemma_emit_args_total(s: Seq<NodeV>)
    requires
        args_emit_clean(s),
    ensures
        emit_args(s) is Ok,
    decreases s,
{
    if s.len() > 0 {
        lemma_emit_total(s[0]);
        lemma_emit_args_total(s.subrange(1, s.len() as int));
    }
}

/// Trees whose applications never apply the bare name `if`. Emission
/// succeeds on every such tree, and inference turns every parser output
/// into one.
pub open spec fn no_if_app(n: NodeV) -> bool
    decreases n,
{
    match n {
        NodeV::Function { body, .. } => no_if_app(*body),
        NodeV::Lambda { body, .. } => no_if_app(*body),
        NodeV::Application { func, args } => no_if_app(*func) && no_if_app_seq(args)
            && emit_spec(*func) != Ok::<Seq<char>, Seq<char>>("if"@),
        NodeV::Conditional { condition, true_branch, false_branch } => no_if_app(*condition)
            && no_if_app(*true_branch) && (match false_branch {
            Some(f) => no_if_app(*f),
            None => true,
        }),
        NodeV::BinaryOperation { left, right, .. } => no_if_app(*left) && no_if_app(*right),
        NodeV::List { elements, .. } => no_if_app_seq(elements),
        _ => true,
    }
}

pub open spec fn no_if_app_seq(s: Seq<NodeV>) -> bool
    decreases s,
{
    if s.len() == 0 {
        true
    } else {
        no_if_app(s[0]) && no_if_app_seq(s.subrange(1, s.len() as int))
    }
}

proof fn lemma_no_if_clean(n: NodeV)
    requires
        no_if_app(n),
    ensures
        emit_clean(n),
    decreases n,
{
    match n {
        NodeV::Function { body, .. } => lemma_no_if_clean(*body),
        NodeV::Lambda { body, .. } => lemma_no_if_clean(*body),
        NodeV::Application { func, args } => {
            lemma_no_if_clean(*func);
            lemma_no_if_clean_seq(args);
        },
        NodeV::Conditional { condition, true_branch, false_branch } => {
            lemma_no_if_clean(*condition);
            lemma_no_if_clean(*true_branch);
            match false_branch {
                Some(f) => lemma_no_if_clean(*f),
                None => {},
            }
        },
        NodeV::BinaryOperation { left, right, .. } => {
            lemma_no_if_clean(*left);
            lemma_no_if_clean(*right);
        },
        NodeV::List { elements, .. } => lemma_no_if_clean_seq(elements),
        _ => {},
    }
}

proof fn lemma_no_if_clean_seq(s: Seq<NodeV>)
    requires
        no_if_app_seq(s),
    ensures
        args_emit_clean(s),
    decreases s,
{
    if s.len() > 0 {
        lemma_no_if_clean(s[0]);
        lemma_no_if_clean_seq(s.subrange(1, s.len() as int));
    }
}

/// Emission succeeds on every tree whose applications never apply the bare
/// name `if`.
pub proof fn lemma_no_if_total(n: NodeV)
    requires
        no_if_app(n),
    ensures
        emit_spec(n) is Ok,
{
    lemma_no_if_clean(n);
    lemma_emit_total(n);
}

/// Inference turns every parser-producible tree into one whose
/// applications never apply the bare name `if`; what emission renders for
/// such a tree is never that bare word, and never empty.
#[verifier::rlimit(100)]
#[verifier::spinoff_prover]
proof fn lemma_infer_keeps_no_if(n: NodeV)
    requires
        crate::sexpr::wf_print(n),
    ensures
        no_if_app(crate::ast::infer::infer_spec(n)),
        (match emit_spec(crate::ast::infer::infer_spec(n)) {
            Ok(s) => s != "if"@ && s.len() > 0,
            Err(_) => true,
        }),
    decreases n,
{
    crate::sexpr::lemma_keywords();
    reveal_strlit("if");
    reveal_strlit("fn ");
    reveal_strlit("|");
    reveal_strlit("vec![");
    reveal_strlit("if ");
    reveal_strlit(" ");
    reveal_strlit("==");
    reveal_strlit("true");
    reveal_strlit("false");
    reveal_strlit(".len()");
    reveal_strlit(".first()");
    reveal_strlit("(");
    reveal_strlit(")");
    let m = crate::ast::infer::infer_spec(n);
    match n {
        NodeV::Function { body, .. } => {
            lemma_infer_keeps_no_if(*body);
            match emit_spec(m) {
                Ok(s) => {
                    assert(s[0] == 'f');
                },
                Err(_) => {},
            }
        },
        NodeV::Lambda { body, .. } => {
            lemma_infer_keeps_no_if(*body);
            match emit_spec(m) {
                Ok(s) => {
                    assert(s[0] == '|');
                },
                Err(_) => {},
            }
        },
        NodeV::Application { func, args } => {
            lemma_infer_keeps_no_if(*func);
            lemma_infer_keeps_no_if_seq(args);
            match emit_spec(m) {
                Ok(s) => {
                    assert(s[s.len() - 1] == ')');
                    assert("if"@[1] == 'f');
                },
                Err(_) => {},
            }
        },
        NodeV::BinaryOperation { operator, left, right, .. } => {
            lemma_infer_keeps_no_if(*left);
            lemma_infer_keeps_no_if(*right);
            match emit_spec(m) {
                Ok(s) => {
                    assert(s.len() >= 5);
                },
                Err(_) => {},
            }
        },
        NodeV::Conditional { condition, true_branch, false_branch } => {
            lemma_infer_keeps_no_if(*condition);
            lemma_infer_keeps_no_if(*true_branch);
            match false_branch {
                Some(f) => lemma_infer_keeps_no_if(*f),
                None => {},
            }
            match emit_spec(m) {
                Ok(s) => {
                    assert(s.len() >= 3);
                },
                Err(_) => {},
            }
        },
        NodeV::List { elements, .. } => {
            lemma_infer_keeps_no_if_seq(elements);
            match emit_spec(m) {
                Ok(s) => {
                    assert(s[0] == 'v');
                },
                Err(_) => {},
            }
        },
        NodeV::Symbol { name, type_hint } => {
            if crate::number::is_i64_numeral(name) {
                let v = crate::number::int_numeral_value(name);
                if v < 0 {
                    assert(crate::number::int_dec_seq(v)[0] == '-');
                } else {
                    crate::number::lemma_dec_digits_props(v as nat);
                    assert(crate::number::is_digit_char(crate::number::int_dec_seq(v)[0]));
                }
            } else if crate::number::is_signed_numeral(name) {
                crate::number::lemma_signed_numeral_num_wf(name);
                let f = crate::number::signed_numeral_num(name);
                if f.negative {
                    assert(f.float_text()[0] == '-');
                } else {
                    assert(f.float_text()[0] == f.int_part[0]);
                    assert(crate::number::is_digit_char(f.float_text()[0]));
                }
            } else if crate::ast::is_bool_name(name) {
            } else {
                assert(name != "if"@);
            }
        },
        NodeV::Literal { value } => {
            match value {
                ValueV::Float(f) => {
                    assert(f.float_text()[0] == f.int_part[0]);
                    assert(crate::number::is_digit_char(f.float_text()[0]));
                },
                ValueV::Str(text) => {
                    assert(literal_text(value)[0] == '"');
                },
                _ => {},
            }
        },
        NodeV::Nil => {},
    }
}

proof fn lemma_infer_keeps_no_if_seq(s: Seq<NodeV>)
    requires
        crate::sexpr::wf_print_seq(s),
    ensures
        no_if_app_seq(crate::ast::infer::infer_seq(s)),
    decreases s,
{
    if s.len() > 0 {
        lemma_infer_keeps_no_if(s[0]);
        lemma_infer_keeps_no_if_seq(s.subrange(1, s.len() as int));
        assert(crate::ast::infer::infer_seq(s).subrange(1, crate::ast::infer::infer_seq(
            s).len() as int) =~= crate::ast::infer::infer_seq(s.subrange(1, s.len() as int)));
    }
}

/// After inference, emission succeeds on every tree the parser produces.
pub proof fn lemma_inferred_emits(n: NodeV)
    requires
        crate::sexpr::wf_print(n),
    ensures
        emit_spec(crate::ast::infer::infer_spec(n)) is Ok,
{
    lemma_infer_keeps_no_if(n);
    lemma_no_if_total(crate::ast::infer::infer_spec(n));
}

fn params_text_x(args: &Vec<(String, ShenType)>) -> (s: String)
    ensures
        s@ == params_text(args.deep_view()),
{
    let ghost dv = args.deep_view();
    let mut acc = String::new();
    let mut k: usize = args.len();
    proof {
        assert(dv.len() == args@.len());
        assert(dv.skip(dv.len() as int) =~= Seq::<(Seq<char>, ShenType)>::empty());
    }
    while k > 0
        invariant
            k <= args@.len(),
            dv == args.deep_view(),
            dv.len() == args@.len(),
            acc@ == params_text(dv.skip(k as int)),
        decreases k,
    {
        k -= 1;
        proof {
            assert(dv.skip(k as int)[0] == dv[k as int]);
            assert(dv[k as int] == args@[k as int].deep_view());
            assert(dv.skip(k as int).drop_first() =~= dv.skip(k as int + 1));
        }
        let (name, _t) = &args[k];
        let ghost old_acc = acc@;
        let mut t = String::new();
        t.append(name.as_str());
        if k + 1 < args.len() {
            t.append(": impl Clone, ");
            t.append(acc.as_str());
            proof {
                assert(t@ =~= dv[k as int].0 + ": impl Clone, "@ + old_acc);
            }
        } else {
            t.append(": impl Clone");
            proof {
                assert(t@ =~= dv[k as int].0 + ": impl Clone"@);
            }
        }
        acc = t;
    }
    proof {
        assert(dv.skip(0) =~= dv);
    }
    acc
}

fn closure_params_text_x(args: &Vec<(String, ShenType)>) -> (s: String)
    ensures
        s@ == closure_params_text(args.deep_view()),
{
    let ghost dv = args.deep_view();
    let mut acc = String::new();
    let mut k: usize = args.len();
    proof {
        assert(dv.len() == args@.len());
        assert(dv.skip(dv.len() as int) =~= Seq::<(Seq<char>, ShenType)>::empty());
    }
    while k > 0
        invariant
            k <= args@.len(),
            dv == args.deep_view(),
            dv.len() == args@.len(),
            acc@ == closure_params_text(dv.skip(k as int)),
        decreases k,
    {
        k -= 1;
        proof {
            assert(dv.skip(k as int)[0] == dv[k as int]);
            assert(dv[k as int] == args@[k as int].deep_view());
            assert(dv.skip(k as int).drop_first() =~= dv.skip(k as int + 1));
        }
        let (name, _t) = &args[k];
        let ghost old_acc = acc@;
        let mut t = String::new();
        t.append(name.as_str());
        if k + 1 < args.len() {
            t.append(", ");
            t.append(acc.as_str());
            proof {
                assert(t@ =~= dv[k as int].0 + ", "@ + old_acc);
            }
        } else {
            proof {
                assert(t@ =~= dv[k as int].0);
            }
        }
        acc = t;
    }
    proof {
        assert(dv.skip(0) =~= dv);
    }
    acc
}

fn emit_args_x(args: &Vec<ShenNode>) -> (r: Result<String, TranspilerError>)
    ensures
        ({
            let g = emit_args(nodes_view(args@));
            match r {
                Ok(s) => g == Ok::<Seq<char>, Seq<char>>(s@),
                Err(e) => g is Err && e.deep_view() == ErrV::CodegenError(g->Err_0),
            }
        }),
    decreases args,
{
    let ghost sv = nodes_view(args@);
    proof {
        lemma_nodes_view(args@);
        assert(sv.skip(sv.len() as int) =~= Seq::<NodeV>::empty());
    }
    let mut acc = String::new();
    let mut err: Option<TranspilerError> = None;
    let mut k: usize = args.len();
    while k > 0
        invariant
            k <= args@.len(),
            sv == nodes_view(args@),
            sv.len() == args@.len(),
            forall|j: int| 0 <= j < args@.len() ==> sv[j] == node_view(#[trigger] args@[j]),
            ({
                let g = emit_args(sv.skip(k as int));
                match err {
                    Some(e) => g is Err && e.deep_view() == ErrV::CodegenError(g->Err_0),
                    None => g == Ok::<Seq<char>, Seq<char>>(acc@),
                }
            }),
        decreases k,
    {
        k -= 1;
        let ghost rem = sv.skip(k as int);
        proof {
            assert(rem[0] == sv[k as int]);
            assert(rem.subrange(1, rem.len() as int) =~= sv.skip(k as int + 1));
        }
        match generate_rust_code(&args[k]) {
            Err(e) => {
                err = Some(e);
            },
            Ok(h) => {
                if err.is_none() {
                    if k + 1 == args.len() {
                        acc = h;
                    } else {
                        let mut t = h;
                        t.append(", ");
                        t.append(acc.as_str());
                        acc = t;
                    }
                }
            },
        }
    }
    proof {
        assert(sv.skip(0) =~= sv);
    }
    match err {
        Some(e) => Err(e),
        None => Ok(acc),
    }
}

/// Renders a tree as target source text. Succeeds on every tree the parser
/// can produce; the one refusal is an `if` written as an application with
/// other than three arguments.
pub fn generate_rust_code(node: &ShenNode) -> (r: Result<String, TranspilerError>)
    ensures
        ({
            let g = emit_spec(node.deep_view());
            match r {
                Ok(s) => g == Ok::<Seq<char>, Seq<char>>(s@),
                Err(e) => g is Err && e.deep_view() == ErrV::CodegenError(g->Err_0),
            }
        }),
    decreases node,
{
    match node {
        ShenNode::Function { name, args, return_type: _, body } => {
            let b = match generate_rust_code(body) {
                Ok(b) => b,
                Err(e) => {
                    return Err(e);
                },
            };
            let mut s = String::from_str("fn ");
            s.append(name.as_str());
            s.append("(");
            let ps = params_text_x(args);
            s.append(ps.as_str());
            s.append(") -> impl Clone {\n    ");
            s.append(b.as_str());
            s.append("\n}");
            Ok(s)
        },
        ShenNode::Symbol { name, .. } => Ok(name.clone()),
        ShenNode::Nil => Ok(String::from_str("None")),
        ShenNode::Application { func, args } => {
            let ghost sv = nodes_view(args@);
            proof {
                lemma_nodes_view(args@);
            }
            let f = match generate_rust_code(func) {
                Ok(f) => f,
                Err(e) => {
                    return Err(e);
                },
            };
            if str_eq(f.as_str(), "length") && args.len() == 1 {
                let mut a = match generate_rust_code(&args[0]) {
                    Ok(a) => a,
                    Err(e) => {
                        return Err(e);
                    },
                };
                a.append(".len()");
                Ok(a)
            } else if str_eq(f.as_str(), "first") && args.len() == 1 {
                let mut a = match generate_rust_code(&args[0]) {
                    Ok(a) => a,
                    Err(e) => {
                        return Err(e);
                    },
                };
                a.append(".first()");
                Ok(a)
            } else if str_eq(f.as_str(), "if") {
                if args.len() == 3 {
                    let c = match generate_rust_code(&args[0]) {
                        Ok(c) => c,
                        Err(e) => {
                            return Err(e);
                        },
                    };
                    let t = match generate_rust_code(&args[1]) {
                        Ok(t) => t,
                        Err(e) => {
                            return Err(e);
                        },
                    };
                    let fb = match generate_rust_code(&args[2]) {
                        Ok(fb) => fb,
                        Err(e) => {
                            return Err(e);
                        },
                    };
                    let mut s = String::from_str("if ");
                    s.append(c.as_str());
                    s.append(" { ");
                    s.append(t.as_str());
                    s.append(" } else { ");
                    s.append(fb.as_str());
                    s.append(" }");
                    Ok(s)
                } else {
                    Err(TranspilerError::CodegenError(String::from_str("Invalid 'if' expression")))
                }
            } else {
                let a = match emit_args_x(args) {
                    Ok(a) => a,
                    Err(e) => {
                        return Err(e);
                    },
                };
                let mut s = f;
                s.append("(");
                s.append(a.as_str());
                s.append(")");
                Ok(s)
            }
        },
        ShenNode::BinaryOperation { operator, left, right, .. } => {
            let l = match generate_rust_code(left) {
                Ok(l) => l,
                Err(e) => {
                    return Err(e);
                },
            };
            let r = match generate_rust_code(right) {
                Ok(r) => r,
                Err(e) => {
                    return Err(e);
                },
            };
            let mut s = l;
            s.append(" ");
            if str_eq(operator.as_str(), "=") {
                s.append("==");
            } else {
                s.append(operator.as_str());
            }
            s.append(" ");
            s.append(r.as_str());
            Ok(s)
        },
        ShenNode::Conditional { condition, true_branch, false_branch } => {
            let c = match generate_rust_code(condition) {
                Ok(c) => c,
                Err(e) => {
                    return Err(e);
                },
            };
            let t = match generate_rust_code(true_branch) {
                Ok(t) => t,
                Err(e) => {
                    return Err(e);
                },
            };
            let mut s = String::from_str("if ");
            s.append(c.as_str());
            s.append(" {\n        ");
            s.append(t.as_str());
            match false_branch {
                Some(f) => {
                    let fb = match generate_rust_code(f) {
                        Ok(fb) => fb,
                        Err(e) => {
                            return Err(e);
                        },
                    };
                    s.append("\n    } else {\n        ");
                    s.append(fb.as_str());
                    s.append("\n    }");
                },
                None => {
                    s.append("\n    } else {}");
                },
            }
            Ok(s)
        },
        ShenNode::Lambda { args, body, .. } => {
            let b = match generate_rust_code(body) {
                Ok(b) => b,
                Err(e) => {
                    return Err(e);
                },
            };
            let mut s = String::from_str("|");
            let ps = closure_params_text_x(args);
            s.append(ps.as_str());
            s.append("| { ");
            s.append(b.as_str());
            s.append(" }");
            Ok(s)
        },
        ShenNode::List { elements, .. } => {
            let a = match emit_args_x(elements) {
                Ok(a) => a,
                Err(e) => {
                    return Err(e);
                },
            };
            let mut s = String::from_str("vec![");
            s.append(a.as_str());
            s.append("]");
            Ok(s)
        },
        ShenNode::Literal { value } => {
            match value {
                ShenValue::Integer(i) => Ok(i64_to_string(*i)),
                ShenValue::Float(f) => Ok(f.float_text()),
                ShenValue::String(text) => {
                    let mut s = String::new();
                    push_char(&mut s, '"');
                    s.append(text.as_str());
                    push_char(&mut s, '"');
                    proof {
                        assert(s@ =~= seq!['"'] + text@ + seq!['"']);
                    }
                    Ok(s)
                },
                ShenValue::Boolean(b) => {
                    if *b {
                        Ok(String::from_str("true"))
                    } else {
                        Ok(String::from_str("false"))
                    }
                },
                ShenValue::Nil => Ok(String::from_str("None")),
            }
        },
    }
}

} // verus!
