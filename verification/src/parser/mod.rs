//! Recursive-descent parser over parenthesized S-expressions.
//!
//! The parser first checks that the parentheses of the whole token sequence
//! balance (anything else is [`ParseError::UnbalancedParens`]), then
//! dispatches on the token after each opening parenthesis: `defun`, `lambda`,
//! `if`, `list`, an operator, or an applied expression. Nesting is bounded by
//! [`MAX_NESTING_DEPTH`] so that deeply nested input fails cleanly instead of
//! overflowing the call stack.

pub mod token;

use vstd::prelude::*;

use crate::ast::{NodeV, ShenNode, ShenType, ShenValue, ValueV};
use crate::parser::token::{Token, TokV};

verus! {

broadcast use vstd::std_specs::vec::group_vec_axioms, vstd::seq::group_seq_axioms;

/// Forms whose shape the parser checks.
#[derive(Debug, Clone, Copy, PartialEq, Eq, Structural)]
pub enum FormKind {
    Defun,
    Lambda,
    If,
    List,
    BinaryOperation,
    Application,
}

/// Why parsing failed. Every variant names the offending position in the
/// token sequence where one is known.
#[derive(Debug, Clone, Copy, PartialEq, Eq, Structural)]
pub enum ParseError {
    /// There was no token to parse.
    EmptyInput,
    /// The parentheses of the input do not balance.
    UnbalancedParens,
    /// A token that cannot open an expression.
    UnexpectedToken { position: usize },
    /// A form that opened correctly but does not have the required shape.
    MalformedForm { form: FormKind, position: usize },
    /// More than [`MAX_NESTING_DEPTH`] nested forms.
    NestingTooDeep,
}

/// The deepest nesting of forms the parser accepts before failing with
/// [`ParseError::NestingTooDeep`] rather than risking the call stack.
pub const MAX_NESTING_DEPTH: u32 = 1000;

/// Parenthesis balance, tracked by depth: no prefix closes more than was
/// opened, and everything opened is closed.
pub open spec fn bal(t: Seq<TokV>, depth: int) -> bool
    decreases t.len(),
{
    if t.len() == 0 {
        depth == 0
    } else {
        match t[0] {
            TokV::OpenParen => bal(t.drop_first(), depth + 1),
            TokV::CloseParen => depth > 0 && bal(t.drop_first(), depth - 1),
            _ => bal(t.drop_first(), depth),
        }
    }
}

pub open spec fn balanced(t: Seq<TokV>) -> bool {
    bal(t, 0)
}

/// One parsed expression together with the index just past it.
pub type Step = Result<(NodeV, int), ParseError>;

/// Parses one expression starting at `i`: an atom, or a parenthesized form.
pub open spec fn parse_expr_at(t: Seq<TokV>, i: int, d: nat) -> Step
    decreases d, t.len() - i, 1int,
        when 0 <= i <= t.len()
{
    if i == t.len() {
        Err(ParseError::EmptyInput)
    } else {
        match t[i] {
            TokV::Identifier(name) => Ok(
                (NodeV::Symbol { name, type_hint: ShenType::Symbol }, i + 1),
            ),
            TokV::Number(n) => Ok((NodeV::Literal { value: ValueV::Float(n) }, i + 1)),
            TokV::Literal(s) => Ok((NodeV::Literal { value: ValueV::Str(s) }, i + 1)),
            TokV::OpenParen => parse_form_at(t, i, d),
            _ => Err(ParseError::UnexpectedToken { position: i as usize }),
        }
    }
}

/// Dispatches a parenthesized form on the token after the opening
/// parenthesis at `i`.
pub open spec fn parse_form_at(t: Seq<TokV>, i: int, d: nat) -> Step
    decreases d, t.len() - i, 0int,
        when 0 <= i <= t.len()
{
    if d == 0 {
        Err(ParseError::NestingTooDeep)
    } else if i + 1 >= t.len() {
        Err(ParseError::EmptyInput)
    } else {
        match t[i + 1] {
            TokV::Defun => parse_defun_at(t, i, (d - 1) as nat),
            TokV::Lambda => parse_lambda_at(t, i, (d - 1) as nat),
            TokV::If => parse_if_at(t, i, (d - 1) as nat),
            TokV::List => parse_list_at(t, i, (d - 1) as nat),
            TokV::Operator(op) => parse_binop_at(t, i, (d - 1) as nat),
            TokV::Identifier(_) => parse_application_at(t, i, (d - 1) as nat),
            TokV::OpenParen => parse_application_at(t, i, (d - 1) as nat),
            _ => parse_generic_list_at(t, i, (d - 1) as nat),
        }
    }
}

/// Parses the parameter list of a `defun` or `lambda`: bare identifiers up
/// to the closing parenthesis, each bound initially to `Symbol`.
pub open spec fn parse_params_at(t: Seq<TokV>, j: int, form: FormKind) -> Result<
    (Seq<(Seq<char>, ShenType)>, int),
    ParseError,
>
    decreases t.len() - j,
        when 0 <= j <= t.len()
{
    if j == t.len() {
        Err(ParseError::EmptyInput)
    } else {
        match t[j] {
            TokV::CloseParen => Ok((Seq::empty(), j + 1)),
            TokV::Identifier(name) => match parse_params_at(t, j + 1, form) {
                Ok((ps, k)) => Ok((seq![(name, ShenType::Symbol)] + ps, k)),
                Err(e) => Err(e),
            },
            _ => Err(ParseError::MalformedForm { form, position: j as usize }),
        }
    }
}

/// Parses expressions up to (and consuming) the closing parenthesis.
pub open spec fn parse_args_at(t: Seq<TokV>, k: int, d: nat, form: FormKind) -> Result<
    (Seq<NodeV>, int),
    ParseError,
>
    decreases d, t.len() - k, 2int,
        when 0 <= k <= t.len()
{
    if k == t.len() {
        Err(ParseError::EmptyInput)
    } else if t[k] is CloseParen {
        Ok((Seq::empty(), k + 1))
    } else {
        match parse_expr_at(t, k, d) {
            Err(e) => Err(e),
            Ok((n, j)) => {
                let j2 = if k < j <= t.len() {
                    j
                } else {
                    k + 1
                };
                match parse_args_at(t, j2, d, form) {
                    Ok((ns, m)) => Ok((seq![n] + ns, m)),
                    Err(e) => Err(e),
                }
            },
        }
    }
}

/// `(defun NAME (PARAM*) BODY)`. The return type is left at `Symbol` for
/// inference to tighten.
pub open spec fn parse_defun_at(t: Seq<TokV>, i: int, d: nat) -> Step
    decreases d, t.len() - i, 3int,
        when 0 <= i <= t.len() - 2
{
    if i + 2 == t.len() {
        Err(ParseError::EmptyInput)
    } else if !(t[i + 2] is Identifier) {
        Err(ParseError::MalformedForm { form: FormKind::Defun, position: (i + 2) as usize })
    } else if i + 3 == t.len() {
        Err(ParseError::EmptyInput)
    } else if !(t[i + 3] is OpenParen) {
        Err(ParseError::MalformedForm { form: FormKind::Defun, position: (i + 3) as usize })
    } else {
        match parse_params_at(t, i + 4, FormKind::Defun) {
            Err(e) => Err(e),
            Ok((params, j)) => {
                let j2 = if i + 4 <= j <= t.len() {
                    j
                } else {
                    t.len() as int
                };
                match parse_expr_at(t, j2, d) {
                    Err(e) => Err(e),
                    Ok((body, k)) => {
                        if 0 <= k < t.len() && t[k] is CloseParen {
                            Ok(
                                (
                                    NodeV::Function {
                                        name: t[i + 2]->Identifier_0,
                                        args: params,
                                        return_type: ShenType::Symbol,
                                        body: Box::new(body),
                                    },
                                    k + 1,
                                ),
                            )
                        } else {
                            Err(
                                ParseError::MalformedForm {
                                    form: FormKind::Defun,
                                    position: if k < t.len() {
                                        k as usize
                                    } else {
                                        t.len() as usize
                                    },
                                },
                            )
                        }
                    },
                }
            },
        }
    }
}

/// `(lambda (PARAM*) BODY)`; `\` and the Greek lambda spell `lambda`.
pub open spec fn parse_lambda_at(t: Seq<TokV>, i: int, d: nat) -> Step
    decreases d, t.len() - i, 3int,
        when 0 <= i <= t.len() - 2
{
    if i + 2 == t.len() {
        Err(ParseError::EmptyInput)
    } else if !(t[i + 2] is OpenParen) {
        Err(ParseError::MalformedForm { form: FormKind::Lambda, position: (i + 2) as usize })
    } else {
        match parse_params_at(t, i + 3, FormKind::Lambda) {
            Err(e) => Err(e),
            Ok((params, j)) => {
                let j2 = if i + 3 <= j <= t.len() {
                    j
                } else {
                    t.len() as int
                };
                match parse_expr_at(t, j2, d) {
                    Err(e) => Err(e),
                    Ok((body, k)) => {
                        if 0 <= k < t.len() && t[k] is CloseParen {
                            Ok(
                                (
                                    NodeV::Lambda {
                                        args: params,
                                        return_type: ShenType::Symbol,
                                        body: Box::new(body),
                                    },
                                    k + 1,
                                ),
                            )
                        } else {
                            Err(
                                ParseError::MalformedForm {
                                    form: FormKind::Lambda,
                                    position: if k < t.len() {
                                        k as usize
                                    } else {
                                        t.len() as usize
                                    },
                                },
                            )
                        }
                    },
                }
            },
        }
    }
}

/// `(if CONDITION TRUE FALSE?)`: each slot is exactly one expression and the
/// false branch may be absent.
pub open spec fn parse_if_at(t: Seq<TokV>, i: int, d: nat) -> Step
    decreases d, t.len() - i, 3int,
        when 0 <= i <= t.len() - 2
{
    match parse_expr_at(t, i + 2, d) {
        Err(e) => Err(e),
        Ok((cond, k1)) => {
            let k1a = if i + 2 <= k1 <= t.len() {
                k1
            } else {
                i + 2
            };
            match parse_expr_at(t, k1a, d) {
                Err(e) => Err(e),
                Ok((tb, k2)) => {
                    if 0 <= k2 < t.len() && t[k2] is CloseParen {
                        Ok(
                            (
                                NodeV::Conditional {
                                    condition: Box::new(cond),
                                    true_branch: Box::new(tb),
                                    false_branch: None,
                                },
                                k2 + 1,
                            ),
                        )
                    } else {
                        let k2a = if k1a <= k2 <= t.len() {
                            k2
                        } else {
                            k1a
                        };
                        match parse_expr_at(t, k2a, d) {
                            Err(e) => Err(e),
                            Ok((fb, k3)) => {
                                if 0 <= k3 < t.len() && t[k3] is CloseParen {
                                    Ok(
                                        (
                                            NodeV::Conditional {
                                                condition: Box::new(cond),
                                                true_branch: Box::new(tb),
                                                false_branch: Some(Box::new(fb)),
                                            },
                                            k3 + 1,
                                        ),
                                    )
                                } else {
                                    Err(
                                        ParseError::MalformedForm {
                                            form: FormKind::If,
                                            position: if 0 <= k3 < t.len() {
                                                k3 as usize
                                            } else {
                                                t.len() as usize
                                            },
                                        },
                                    )
                                }
                            },
                        }
                    }
                },
            }
        },
    }
}

/// `(OP LEFT RIGHT)`: exactly two operands; the operator text is kept
/// verbatim and the result type is left for inference.
pub open spec fn parse_binop_at(t: Seq<TokV>, i: int, d: nat) -> Step
    decreases d, t.len() - i, 3int,
        when 0 <= i <= t.len() - 2
{
    match parse_expr_at(t, i + 2, d) {
        Err(e) => Err(e),
        Ok((left, k1)) => {
            let k1a = if i + 2 <= k1 <= t.len() {
                k1
            } else {
                i + 2
            };
            match parse_expr_at(t, k1a, d) {
                Err(e) => Err(e),
                Ok((right, k2)) => {
                    if 0 <= k2 < t.len() && t[k2] is CloseParen {
                        Ok(
                            (
                                NodeV::BinaryOperation {
                                    operator: t[i + 1]->Operator_0,
                                    left: Box::new(left),
                                    right: Box::new(right),
                                    result_type: ShenType::Symbol,
                                },
                                k2 + 1,
                            ),
                        )
                    } else {
                        Err(
                            ParseError::MalformedForm {
                                form: FormKind::BinaryOperation,
                                position: if 0 <= k2 < t.len() {
                                    k2 as usize
                                } else {
                                    t.len() as usize
                                },
                            },
                        )
                    }
                },
            }
        },
    }
}

/// `(FUNC ARG*)`: the function is an identifier or itself a parenthesized
/// form; arguments run to the closing parenthesis.
pub open spec fn parse_application_at(t: Seq<TokV>, i: int, d: nat) -> Step
    decreases d, t.len() - i, 3int,
        when 0 <= i <= t.len() - 2
{
    let func_step: Step = if t[i + 1] is Identifier {
        Ok((NodeV::Symbol { name: t[i + 1]->Identifier_0, type_hint: ShenType::Symbol }, i + 2))
    } else {
        parse_form_at(t, i + 1, d)
    };
    match func_step {
        Err(e) => Err(e),
        Ok((func, j)) => {
            let j2 = if i + 2 <= j <= t.len() {
                j
            } else {
                i + 2
            };
            match parse_args_at(t, j2, d, FormKind::Application) {
                Err(e) => Err(e),
                Ok((args, k)) => Ok((NodeV::Application { func: Box::new(func), args }, k)),
            }
        },
    }
}

/// `(list ELEM*)`: a homogeneous list literal; the element type is left for
/// inference.
pub open spec fn parse_list_at(t: Seq<TokV>, i: int, d: nat) -> Step
    decreases d, t.len() - i, 3int,
        when 0 <= i <= t.len() - 2
{
    match parse_args_at(t, i + 2, d, FormKind::List) {
        Err(e) => Err(e),
        Ok((elems, k)) => Ok(
            (NodeV::List { elements: elems, element_type: ShenType::Symbol }, k),
        ),
    }
}

/// A parenthesized group headed by no keyword, operator or identifier:
/// parsed as a plain list of its expressions.
pub open spec fn parse_generic_list_at(t: Seq<TokV>, i: int, d: nat) -> Step
    decreases d, t.len() - i, 3int,
        when 0 <= i <= t.len() - 2
{
    match parse_args_at(t, i + 1, d, FormKind::List) {
        Err(e) => Err(e),
        Ok((elems, k)) => Ok(
            (NodeV::List { elements: elems, element_type: ShenType::Symbol }, k),
        ),
    }
}

/// The executable parser's result agrees with the specification step `g`
/// and, on success, lands strictly past `lo` and within the input.
pub open spec fn step_matches(
    r: Result<(ShenNode, usize), ParseError>,
    g: Step,
    lo: int,
    t: Seq<TokV>,
) -> bool {
    match r {
        Ok((n, j)) => g == Ok::<(NodeV, int), ParseError>((n.deep_view(), j as int)) && lo < j
            <= t.len(),
        Err(e) => g == Err::<(NodeV, int), ParseError>(e),
    }
}

fn parse_expr_x(t: &Vec<Token>, i: usize, d: u32) -> (r: Result<(ShenNode, usize), ParseError>)
    requires
        i <= t@.len(),
    ensures
        step_matches(r, parse_expr_at(t.deep_view(), i as int, d as nat), i as int, t.deep_view()),
    decreases d, t@.len() - i, 1int,
{
    let ghost tv = t.deep_view();
    if i == t.len() {
        return Err(ParseError::EmptyInput);
    }
    proof {
        assert(tv[i as int] == t@[i as int].deep_view());
    }
    match &t[i] {
        Token::Identifier(name) => Ok(
            (ShenNode::Symbol { name: name.clone(), type_hint: ShenType::Symbol }, i + 1),
        ),
        Token::Number(n) => Ok((ShenNode::Literal { value: ShenValue::Float(n.clone()) }, i + 1)),
        Token::Literal(s) => Ok(
            (ShenNode::Literal { value: ShenValue::String(s.clone()) }, i + 1),
        ),
        Token::OpenParen => parse_form_x(t, i, d),
        _ => Err(ParseError::UnexpectedToken { position: i }),
    }
}

fn parse_form_x(t: &Vec<Token>, i: usize, d: u32) -> (r: Result<(ShenNode, usize), ParseError>)
    requires
        i < t@.len(),
    ensures
        step_matches(r, parse_form_at(t.deep_view(), i as int, d as nat), i as int, t.deep_view()),
    decreases d, t@.len() - i, 0int,
{
    let ghost tv = t.deep_view();
    if d == 0 {
        return Err(ParseError::NestingTooDeep);
    }
    if t.len() - i == 1 {
        return Err(ParseError::EmptyInput);
    }
    proof {
        assert(tv[i as int + 1] == t@[i as int + 1].deep_view());
    }
    match &t[i + 1] {
        Token::Defun => parse_defun_x(t, i, d - 1),
        Token::Lambda => parse_lambda_x(t, i, d - 1),
        Token::If => parse_if_x(t, i, d - 1),
        Token::List => parse_list_x(t, i, d - 1),
        Token::Operator(_) => parse_binop_x(t, i, d - 1),
        Token::Identifier(_) => parse_application_x(t, i, d - 1),
        Token::OpenParen => parse_application_x(t, i, d - 1),
        _ => parse_generic_list_x(t, i, d - 1),
    }
}

fn parse_params_x(t: &Vec<Token>, j0: usize, form: FormKind) -> (r: Result<
    (Vec<(String, ShenType)>, usize),
    ParseError,
>)
    requires
        j0 <= t@.len(),
    ensures
        ({
            let g = parse_params_at(t.deep_view(), j0 as int, form);
            match r {
                Ok((ps, k)) => g == Ok::<(Seq<(Seq<char>, ShenType)>, int), ParseError>(
                    (ps.deep_view(), k as int),
                ) && j0 < k <= t@.len(),
                Err(e) => g == Err::<(Seq<(Seq<char>, ShenType)>, int), ParseError>(e),
            }
        }),
{
    let ghost tv = t.deep_view();
    let mut ps: Vec<(String, ShenType)> = Vec::new();
    let mut m: usize = j0;
    proof {
        if parse_params_at(tv, j0 as int, form) is Ok {
            assert(ps.deep_view() + parse_params_at(tv, j0 as int, form)->Ok_0.0 =~= parse_params_at(
                tv, j0 as int, form)->Ok_0.0);
        }
    }
    loop
        invariant
            j0 <= m <= t@.len(),
            tv == t.deep_view(),
            tv.len() == t@.len(),
            ({
                let whole = parse_params_at(tv, j0 as int, form);
                match parse_params_at(tv, m as int, form) {
                    Ok((qs, k)) => whole == Ok::<(Seq<(Seq<char>, ShenType)>, int), ParseError>(
                        (ps.deep_view() + qs, k),
                    ),
                    Err(e) => whole == Err::<(Seq<(Seq<char>, ShenType)>, int), ParseError>(e),
                }
            }),
        decreases t@.len() - m,
    {
        if m == t.len() {
            return Err(ParseError::EmptyInput);
        }
        proof {
            assert(tv[m as int] == t@[m as int].deep_view());
        }
        let ghost old_ps = ps.deep_view();
        match &t[m] {
            Token::CloseParen => {
                proof {
                    assert(old_ps + Seq::<(Seq<char>, ShenType)>::empty() =~= old_ps);
                }
                return Ok((ps, m + 1));
            },
            Token::Identifier(name) => {
                ps.push((name.clone(), ShenType::Symbol));
                proof {
                    assert(ps.deep_view() =~= old_ps.push((t@[m as int]->Identifier_0@,
                        ShenType::Symbol)));
                    match parse_params_at(tv, m as int + 1, form) {
                        Ok((qs, k)) => {
                            assert(old_ps + (seq![(tv[m as int]->Identifier_0,
                                ShenType::Symbol)] + qs) =~= ps.deep_view() + qs);
                        },
                        Err(_) => {},
                    }
                }
                m += 1;
            },
            _ => {
                return Err(ParseError::MalformedForm { form, position: m });
            },
        }
    }
}

fn parse_args_x(t: &Vec<Token>, k0: usize, d: u32, form: FormKind) -> (r: Result<
    (Vec<ShenNode>, usize),
    ParseError,
>)
    requires
        k0 <= t@.len(),
    ensures
        ({
            let g = parse_args_at(t.deep_view(), k0 as int, d as nat, form);
            match r {
                Ok((es, m)) => g == Ok::<(Seq<NodeV>, int), ParseError>(
                    (es.deep_view(), m as int),
                ) && k0 < m <= t@.len(),
                Err(e) => g == Err::<(Seq<NodeV>, int), ParseError>(e),
            }
        }),
    decreases d, t@.len() - k0, 2int,
{
    let ghost tv = t.deep_view();
    let mut es: Vec<ShenNode> = Vec::new();
    let mut k: usize = k0;
    proof {
        if parse_args_at(tv, k0 as int, d as nat, form) is Ok {
            assert(es.deep_view() + parse_args_at(tv, k0 as int, d as nat, form)->Ok_0.0
                =~= parse_args_at(tv, k0 as int, d as nat, form)->Ok_0.0);
        }
    }
    loop
        invariant
            k0 <= k <= t@.len(),
            tv == t.deep_view(),
            tv.len() == t@.len(),
            ({
                let whole = parse_args_at(tv, k0 as int, d as nat, form);
                match parse_args_at(tv, k as int, d as nat, form) {
                    Ok((qs, m)) => whole == Ok::<(Seq<NodeV>, int), ParseError>(
                        (es.deep_view() + qs, m),
                    ),
                    Err(e) => whole == Err::<(Seq<NodeV>, int), ParseError>(e),
                }
            }),
        decreases t@.len() - k,
    {
        if k == t.len() {
            return Err(ParseError::EmptyInput);
        }
        proof {
            assert(tv[k as int] == t@[k as int].deep_view());
        }
        let is_close = match &t[k] {
            Token::CloseParen => true,
            _ => false,
        };
        if is_close {
            proof {
                assert(es.deep_view() + Seq::<NodeV>::empty() =~= es.deep_view());
            }
            return Ok((es, k + 1));
        }
        let ghost old_es = es.deep_view();
        match parse_expr_x(t, k, d) {
            Err(e) => {
                return Err(e);
            },
            Ok((n, j)) => {
                let ghost nv = n.deep_view();
                es.push(n);
                proof {
                    assert(es.deep_view() =~= old_es.push(nv));
                    match parse_args_at(tv, j as int, d as nat, form) {
                        Ok((qs, m)) => {
                            assert(old_es + (seq![nv] + qs) =~= es.deep_view() + qs);
                        },
                        Err(_) => {},
                    }
                }
                k = j;
            },
        }
    }
}

fn parse_defun_x(t: &Vec<Token>, i: usize, d: u32) -> (r: Result<(ShenNode, usize), ParseError>)
    requires
        i + 2 <= t@.len(),
    ensures
        step_matches(r, parse_defun_at(t.deep_view(), i as int, d as nat), i as int,
            t.deep_view()),
    decreases d, t@.len() - i, 3int,
{
    let ghost tv = t.deep_view();
    proof {
        assert(t@.len() == t.len());
    }
    if t.len() - i == 2 {
        return Err(ParseError::EmptyInput);
    }
    proof {
        assert(tv[i as int + 2] == t@[i as int + 2].deep_view());
    }
    let name = match &t[i + 2] {
        Token::Identifier(s) => s.clone(),
        _ => {
            return Err(ParseError::MalformedForm { form: FormKind::Defun, position: i + 2 });
        },
    };
    if t.len() - i == 3 {
        return Err(ParseError::EmptyInput);
    }
    proof {
        assert(tv[i as int + 3] == t@[i as int + 3].deep_view());
    }
    match &t[i + 3] {
        Token::OpenParen => {},
        _ => {
            return Err(ParseError::MalformedForm { form: FormKind::Defun, position: i + 3 });
        },
    }
    let (params, j) = match parse_params_x(t, i + 4, FormKind::Defun) {
        Ok(p) => p,
        Err(e) => {
            return Err(e);
        },
    };
    let (body, k) = match parse_expr_x(t, j, d) {
        Ok(b) => b,
        Err(e) => {
            return Err(e);
        },
    };
    if k < t.len() {
        proof {
            assert(tv[k as int] == t@[k as int].deep_view());
        }
        match &t[k] {
            Token::CloseParen => {
                return Ok(
                    (
                        ShenNode::Function {
                            name,
                            args: params,
                            return_type: ShenType::Symbol,
                            body: Box::new(body),
                        },
                        k + 1,
                    ),
                );
            },
            _ => {},
        }
    }
    Err(ParseError::MalformedForm { form: FormKind::Defun, position: k })
}

fn parse_lambda_x(t: &Vec<Token>, i: usize, d: u32) -> (r: Result<(ShenNode, usize), ParseError>)
    requires
        i + 2 <= t@.len(),
    ensures
        step_matches(r, parse_lambda_at(t.deep_view(), i as int, d as nat), i as int,
            t.deep_view()),
    decreases d, t@.len() - i, 3int,
{
    let ghost tv = t.deep_view();
    proof {
        assert(t@.len() == t.len());
    }
    if t.len() - i == 2 {
        return Err(ParseError::EmptyInput);
    }
    proof {
        assert(tv[i as int + 2] == t@[i as int + 2].deep_view());
    }
    match &t[i + 2] {
        Token::OpenParen => {},
        _ => {
            return Err(ParseError::MalformedForm { form: FormKind::Lambda, position: i + 2 });
        },
    }
    let (params, j) = match parse_params_x(t, i + 3, FormKind::Lambda) {
        Ok(p) => p,
        Err(e) => {
            return Err(e);
        },
    };
    let (body, k) = match parse_expr_x(t, j, d) {
        Ok(b) => b,
        Err(e) => {
            return Err(e);
        },
    };
    if k < t.len() {
        proof {
            assert(tv[k as int] == t@[k as int].deep_view());
        }
        match &t[k] {
            Token::CloseParen => {
                return Ok(
                    (
                        ShenNode::Lambda {
                            args: params,
                            return_type: ShenType::Symbol,
                            body: Box::new(body),
                        },
                        k + 1,
                    ),
                );
            },
            _ => {},
        }
    }
    Err(ParseError::MalformedForm { form: FormKind::Lambda, position: k })
}

fn parse_if_x(t: &Vec<Token>, i: usize, d: u32) -> (r: Result<(ShenNode, usize), ParseError>)
    requires
        i + 2 <= t@.len(),
    ensures
        step_matches(r, parse_if_at(t.deep_view(), i as int, d as nat), i as int, t.deep_view()),
    decreases d, t@.len() - i, 3int,
{
    let ghost tv = t.deep_view();
    proof {
        assert(t@.len() == t.len());
    }
    let (cond, k1) = match parse_expr_x(t, i + 2, d) {
        Ok(c) => c,
        Err(e) => {
            return Err(e);
        },
    };
    let (tb, k2) = match parse_expr_x(t, k1, d) {
        Ok(b) => b,
        Err(e) => {
            return Err(e);
        },
    };
    if k2 < t.len() {
        proof {
            assert(tv[k2 as int] == t@[k2 as int].deep_view());
        }
        match &t[k2] {
            Token::CloseParen => {
                return Ok(
                    (
                        ShenNode::Conditional {
                            condition: Box::new(cond),
                            true_branch: Box::new(tb),
                            false_branch: None,
                        },
                        k2 + 1,
                    ),
                );
            },
            _ => {},
        }
    }
    let (fb, k3) = match parse_expr_x(t, k2, d) {
        Ok(b) => b,
        Err(e) => {
            return Err(e);
        },
    };
    if k3 < t.len() {
        proof {
            assert(tv[k3 as int] == t@[k3 as int].deep_view());
        }
        match &t[k3] {
            Token::CloseParen => {
                return Ok(
                    (
                        ShenNode::Conditional {
                            condition: Box::new(cond),
                            true_branch: Box::new(tb),
                            false_branch: Some(Box::new(fb)),
                        },
                        k3 + 1,
                    ),
                );
            },
            _ => {},
        }
    }
    Err(ParseError::MalformedForm { form: FormKind::If, position: k3 })
}

fn parse_binop_x(t: &Vec<Token>, i: usize, d: u32) -> (r: Result<(ShenNode, usize), ParseError>)
    requires
        i + 2 <= t@.len(),
        t@[i as int + 1] is Operator,
    ensures
        step_matches(r, parse_binop_at(t.deep_view(), i as int, d as nat), i as int,
            t.deep_view()),
    decreases d, t@.len() - i, 3int,
{
    let ghost tv = t.deep_view();
    proof {
        assert(t@.len() == t.len());
    }
    proof {
        assert(tv[i as int + 1] == t@[i as int + 1].deep_view());
    }
    let op = match &t[i + 1] {
        Token::Operator(s) => s.clone(),
        _ => {
            return Err(ParseError::MalformedForm { form: FormKind::BinaryOperation, position: i
                + 1 });
        },
    };
    let (left, k1) = match parse_expr_x(t, i + 2, d) {
        Ok(l) => l,
        Err(e) => {
            return Err(e);
        },
    };
    let (right, k2) = match parse_expr_x(t, k1, d) {
        Ok(rr) => rr,
        Err(e) => {
            return Err(e);
        },
    };
    if k2 < t.len() {
        proof {
            assert(tv[k2 as int] == t@[k2 as int].deep_view());
        }
        match &t[k2] {
            Token::CloseParen => {
                return Ok(
                    (
                        ShenNode::BinaryOperation {
                            operator: op,
                            left: Box::new(left),
                            right: Box::new(right),
                            result_type: ShenType::Symbol,
                        },
                        k2 + 1,
                    ),
                );
            },
            _ => {},
        }
    }
    Err(ParseError::MalformedForm { form: FormKind::BinaryOperation, position: k2 })
}

#[verifier::rlimit(50)]
fn parse_application_x(t: &Vec<Token>, i: usize, d: u32) -> (r: Result<
    (ShenNode, usize),
    ParseError,
>)
    requires
        i + 2 <= t@.len(),
    ensures
        step_matches(r, parse_application_at(t.deep_view(), i as int, d as nat), i as int,
            t.deep_view()),
    decreases d, t@.len() - i, 3int,
{
    let ghost tv = t.deep_view();
    proof {
        assert(t@.len() == t.len());
    }
    proof {
        assert(tv[i as int + 1] == t@[i as int + 1].deep_view());
    }
    let is_ident = match &t[i + 1] {
        Token::Identifier(_) => true,
        _ => false,
    };
    let (func, j) = if is_ident {
        let name = match &t[i + 1] {
            Token::Identifier(s) => s.clone(),
            _ => {
                return Err(ParseError::MalformedForm { form: FormKind::Application, position: i
                    + 1 });
            },
        };
        (ShenNode::Symbol { name, type_hint: ShenType::Symbol }, i + 2)
    } else {
        match parse_form_x(t, i + 1, d) {
            Ok(f) => f,
            Err(e) => {
                return Err(e);
            },
        }
    };
    let (args, k) = match parse_args_x(t, j, d, FormKind::Application) {
        Ok(a) => a,
        Err(e) => {
            return Err(e);
        },
    };
    proof {
        crate::ast::lemma_nodes_view(args@);
        assert(crate::ast::nodes_view(args@) =~= args.deep_view());
        assert(parse_application_at(tv, i as int, d as nat) == Ok::<(NodeV, int), ParseError>((
            NodeV::Application { func: Box::new(func.deep_view()), args: args.deep_view() },
            k as int,
        )));
        assert(ShenNode::Application { func: Box::new(func), args }.deep_view()
            == NodeV::Application { func: Box::new(func.deep_view()), args: args.deep_view() });
    }
    Ok((ShenNode::Application { func: Box::new(func), args }, k))
}

fn parse_list_x(t: &Vec<Token>, i: usize, d: u32) -> (r: Result<(ShenNode, usize), ParseError>)
    requires
        i + 2 <= t@.len(),
    ensures
        step_matches(r, parse_list_at(t.deep_view(), i as int, d as nat), i as int, t.deep_view()),
    decreases d, t@.len() - i, 3int,
{
    proof {
        assert(t@.len() == t.len());
    }
    let (elems, k) = match parse_args_x(t, i + 2, d, FormKind::List) {
        Ok(a) => a,
        Err(e) => {
            return Err(e);
        },
    };
    proof {
        crate::ast::lemma_nodes_view(elems@);
        assert(crate::ast::nodes_view(elems@) =~= elems.deep_view());
    }
    Ok((ShenNode::List { elements: elems, element_type: ShenType::Symbol }, k))
}

fn parse_generic_list_x(t: &Vec<Token>, i: usize, d: u32) -> (r: Result<
    (ShenNode, usize),
    ParseError,
>)
    requires
        i + 2 <= t@.len(),
    ensures
        step_matches(r, parse_generic_list_at(t.deep_view(), i as int, d as nat), i as int,
            t.deep_view()),
    decreases d, t@.len() - i, 3int,
{
    proof {
        assert(t@.len() == t.len());
    }
    let (elems, k) = match parse_args_x(t, i + 1, d, FormKind::List) {
        Ok(a) => a,
        Err(e) => {
            return Err(e);
        },
    };
    proof {
        crate::ast::lemma_nodes_view(elems@);
        assert(crate::ast::nodes_view(elems@) =~= elems.deep_view());
    }
    Ok((ShenNode::List { elements: elems, element_type: ShenType::Symbol }, k))
}

/// Whether the parentheses among the tokens balance.
pub fn check_balanced(t: &Vec<Token>) -> (r: bool)
    ensures
        r == balanced(t.deep_view()),
{
    let ghost tv = t.deep_view();
    let mut depth: usize = 0;
    let mut i: usize = 0;
    proof {
        assert(tv.skip(0) =~= tv);
    }
    while i < t.len()
        invariant
            i <= t@.len(),
            depth <= i,
            tv == t.deep_view(),
            tv.len() == t@.len(),
            balanced(tv) == bal(tv.skip(i as int), depth as int),
        decreases t@.len() - i,
    {
        let ghost rem = tv.skip(i as int);
        proof {
            assert(rem[0] == tv[i as int]);
            assert(tv[i as int] == t@[i as int].deep_view());
            assert(rem.drop_first() =~= tv.skip(i as int + 1));
        }
        match &t[i] {
            Token::OpenParen => {
                depth += 1;
            },
            Token::CloseParen => {
                if depth == 0 {
                    return false;
                }
                depth -= 1;
            },
            _ => {},
        }
        i += 1;
    }
    proof {
        assert(tv.skip(tv.len() as int) =~= Seq::<TokV>::empty());
    }
    depth == 0
}

/// Parses a token sequence into the single root expression of the source,
/// exactly as [`parse_spec`] describes: empty input and unbalanced
/// parentheses are rejected first, then the expression is parsed with the
/// nesting bound.
pub fn parse(tokens: &Vec<Token>) -> (r: Result<ShenNode, ParseError>)
    ensures
        ({
            let g = parse_spec(tokens.deep_view());
            match r {
                Ok(n) => g == Ok::<NodeV, ParseError>(n.deep_view()),
                Err(e) => g == Err::<NodeV, ParseError>(e),
            }
        }),
{
    if tokens.len() == 0 {
        return Err(ParseError::EmptyInput);
    }
    if !check_balanced(tokens) {
        return Err(ParseError::UnbalancedParens);
    }
    match parse_expr_x(tokens, 0, MAX_NESTING_DEPTH) {
        Ok((n, _)) => Ok(n),
        Err(e) => Err(e),
    }
}

/// What parsing a whole token sequence yields: the single root expression,
/// or the first error. Unbalanced parentheses are reported before anything
/// else; trailing tokens after the root expression are ignored.
pub open spec fn parse_spec(t: Seq<TokV>) -> Result<NodeV, ParseError> {
    if t.len() == 0 {
        Err(ParseError::EmptyInput)
    } else if !balanced(t) {
        Err(ParseError::UnbalancedParens)
    } else {
        match parse_expr_at(t, 0, MAX_NESTING_DEPTH as nat) {
            Ok((n, j)) => Ok(n),
            Err(e) => Err(e),
        }
    }
}

proof fn lemma_expr_no_unbal(t: Seq<TokV>, i: int, d: nat)
    requires
        0 <= i <= t.len(),
    ensures
        parse_expr_at(t, i, d) != Err::<(NodeV, int), ParseError>(ParseError::UnbalancedParens),
    decreases d, t.len() - i, 1int,
{
    if i < t.len() && t[i] is OpenParen {
        lemma_form_no_unbal(t, i, d);
    }
}

proof fn lemma_form_no_unbal(t: Seq<TokV>, i: int, d: nat)
    requires
        0 <= i <= t.len(),
    ensures
        parse_form_at(t, i, d) != Err::<(NodeV, int), ParseError>(ParseError::UnbalancedParens),
    decreases d, t.len() - i, 0int,
{
    if d > 0 && i + 1 < t.len() {
        match t[i + 1] {
            TokV::Defun => lemma_defun_no_unbal(t, i, (d - 1) as nat),
            TokV::Lambda => lemma_lambda_no_unbal(t, i, (d - 1) as nat),
            TokV::If => lemma_if_no_unbal(t, i, (d - 1) as nat),
            TokV::List => lemma_list_no_unbal(t, i, (d - 1) as nat),
            TokV::Operator(_) => lemma_binop_no_unbal(t, i, (d - 1) as nat),
            TokV::Identifier(_) => lemma_application_no_unbal(t, i, (d - 1) as nat),
            TokV::OpenParen => lemma_application_no_unbal(t, i, (d - 1) as nat),
            _ => lemma_generic_no_unbal(t, i, (d - 1) as nat),
        }
    }
}

proof fn lemma_params_no_unbal(t: Seq<TokV>, j: int, form: FormKind)
    requires
        0 <= j <= t.len(),
    ensures
        parse_params_at(t, j, form) != Err::<(Seq<(Seq<char>, ShenType)>, int), ParseError>(
            ParseError::UnbalancedParens,
        ),
    decreases t.len() - j,
{
    if j < t.len() && t[j] is Identifier {
        lemma_params_no_unbal(t, j + 1, form);
    }
}

proof fn lemma_args_no_unbal(t: Seq<TokV>, k: int, d: nat, form: FormKind)
    requires
        0 <= k <= t.len(),
    ensures
        parse_args_at(t, k, d, form) != Err::<(Seq<NodeV>, int), ParseError>(
            ParseError::UnbalancedParens,
        ),
    decreases d, t.len() - k, 2int,
{
    if k < t.len() && !(t[k] is CloseParen) {
        lemma_expr_no_unbal(t, k, d);
        match parse_expr_at(t, k, d) {
            Ok((n, j)) => {
                let j2 = if k < j <= t.len() {
                    j
                } else {
                    k + 1
                };
                lemma_args_no_unbal(t, j2, d, form);
            },
            Err(_) => {},
        }
    }
}

proof fn lemma_defun_no_unbal(t: Seq<TokV>, i: int, d: nat)
    requires
        0 <= i <= t.len() - 2,
    ensures
        parse_defun_at(t, i, d) != Err::<(NodeV, int), ParseError>(ParseError::UnbalancedParens),
    decreases d, t.len() - i, 3int,
{
    if i + 2 < t.len() && t[i + 2] is Identifier && i + 3 < t.len() && t[i + 3] is OpenParen {
        lemma_params_no_unbal(t, i + 4, FormKind::Defun);
        match parse_params_at(t, i + 4, FormKind::Defun) {
            Ok((params, j)) => {
                let j2 = if i + 4 <= j <= t.len() {
                    j
                } else {
                    t.len() as int
                };
                lemma_expr_no_unbal(t, j2, d);
            },
            Err(_) => {},
        }
    }
}

proof fn lemma_lambda_no_unbal(t: Seq<TokV>, i: int, d: nat)
    requires
        0 <= i <= t.len() - 2,
    ensures
        parse_lambda_at(t, i, d) != Err::<(NodeV, int), ParseError>(ParseError::UnbalancedParens),
    decreases d, t.len() - i, 3int,
{
    if i + 2 < t.len() && t[i + 2] is OpenParen {
        lemma_params_no_unbal(t, i + 3, FormKind::Lambda);
        match parse_params_at(t, i + 3, FormKind::Lambda) {
            Ok((params, j)) => {
                let j2 = if i + 3 <= j <= t.len() {
                    j
                } else {
                    t.len() as int
                };
                lemma_expr_no_unbal(t, j2, d);
            },
            Err(_) => {},
        }
    }
}

proof fn lemma_if_no_unbal(t: Seq<TokV>, i: int, d: nat)
    requires
        0 <= i <= t.len() - 2,
    ensures
        parse_if_at(t, i, d) != Err::<(NodeV, int), ParseError>(ParseError::UnbalancedParens),
    decreases d, t.len() - i, 3int,
{
    lemma_expr_no_unbal(t, i + 2, d);
    match parse_expr_at(t, i + 2, d) {
        Ok((cond, k1)) => {
            let k1a = if i + 2 <= k1 <= t.len() {
                k1
            } else {
                i + 2
            };
            lemma_expr_no_unbal(t, k1a, d);
            match parse_expr_at(t, k1a, d) {
                Ok((tb, k2)) => {
                    if !(0 <= k2 < t.len() && t[k2] is CloseParen) {
                        let k2a = if k1a <= k2 <= t.len() {
                            k2
                        } else {
                            k1a
                        };
                        lemma_expr_no_unbal(t, k2a, d);
                    }
                },
                Err(_) => {},
            }
        },
        Err(_) => {},
    }
}

proof fn lemma_binop_no_unbal(t: Seq<TokV>, i: int, d: nat)
    requires
        0 <= i <= t.len() - 2,
    ensures
        parse_binop_at(t, i, d) != Err::<(NodeV, int), ParseError>(ParseError::UnbalancedParens),
    decreases d, t.len() - i, 3int,
{
    lemma_expr_no_unbal(t, i + 2, d);
    match parse_expr_at(t, i + 2, d) {
        Ok((l, k1)) => {
            let k1a = if i + 2 <= k1 <= t.len() {
                k1
            } else {
                i + 2
            };
            lemma_expr_no_unbal(t, k1a, d);
        },
        Err(_) => {},
    }
}

proof fn lemma_application_no_unbal(t: Seq<TokV>, i: int, d: nat)
    requires
        0 <= i <= t.len() - 2,
    ensures
        parse_application_at(t, i, d) != Err::<(NodeV, int), ParseError>(
            ParseError::UnbalancedParens,
        ),
    decreases d, t.len() - i, 3int,
{
    if !(t[i + 1] is Identifier) {
        lemma_form_no_unbal(t, i + 1, d);
    }
    let func_step: Step = if t[i + 1] is Identifier {
        Ok((NodeV::Symbol { name: t[i + 1]->Identifier_0, type_hint: ShenType::Symbol }, i + 2))
    } else {
        parse_form_at(t, i + 1, d)
    };
    match func_step {
        Ok((func, j)) => {
            let j2 = if i + 2 <= j <= t.len() {
                j
            } else {
                i + 2
            };
            lemma_args_no_unbal(t, j2, d, FormKind::Application);
        },
        Err(_) => {},
    }
}

proof fn lemma_list_no_unbal(t: Seq<TokV>, i: int, d: nat)
    requires
        0 <= i <= t.len() - 2,
    ensures
        parse_list_at(t, i, d) != Err::<(NodeV, int), ParseError>(ParseError::UnbalancedParens),
    decreases d, t.len() - i, 3int,
{
    lemma_args_no_unbal(t, i + 2, d, FormKind::List);
}

proof fn lemma_generic_no_unbal(t: Seq<TokV>, i: int, d: nat)
    requires
        0 <= i <= t.len() - 2,
    ensures
        parse_generic_list_at(t, i, d) != Err::<(NodeV, int), ParseError>(
            ParseError::UnbalancedParens,
        ),
    decreases d, t.len() - i, 3int,
{
    lemma_args_no_unbal(t, i + 1, d, FormKind::List);
}

/// Delimiter balance: parsing fails with `UnbalancedParens` exactly on the
/// token sequences whose parentheses do not balance.
pub proof fn lemma_delimiter_balance(t: Seq<TokV>)
    ensures
        (parse_spec(t) == Err::<NodeV, ParseError>(ParseError::UnbalancedParens)) <==> !balanced(
            t,
        ),
{
    if t.len() == 0 {
        assert(balanced(t));
    } else if balanced(t) {
        lemma_expr_no_unbal(t, 0, MAX_NESTING_DEPTH as nat);
    }
}

/// The name a form goes by in messages.
pub open spec fn form_name(f: FormKind) -> Seq<char> {
    match f {
        FormKind::Defun => "defun"@,
        FormKind::Lambda => "lambda"@,
        FormKind::If => "if"@,
        FormKind::List => "list"@,
        FormKind::BinaryOperation => "binary operation"@,
        FormKind::Application => "application"@,
    }
}

/// The one-line message for a parse error, position included where one is
/// known.
pub open spec fn parse_error_text(e: ParseError) -> Seq<char> {
    match e {
        ParseError::EmptyInput => "Empty input"@,
        ParseError::UnbalancedParens => "Unbalanced parentheses"@,
        ParseError::UnexpectedToken { position } => "Unexpected token at position "@
            + crate::number::dec_digits(position as nat),
        ParseError::MalformedForm { form, position } => "Malformed "@ + form_name(form)
            + " form at position "@ + crate::number::dec_digits(position as nat),
        ParseError::NestingTooDeep => "Nesting too deep"@,
    }
}

impl ParseError {
    /// The human-readable message of the error, as [`parse_error_text`]
    /// states it.
    pub fn message(&self) -> (s: String)
        ensures
            s@ == parse_error_text(*self),
    {
        match self {
            ParseError::EmptyInput => String::from_str("Empty input"),
            ParseError::UnbalancedParens => String::from_str("Unbalanced parentheses"),
            ParseError::UnexpectedToken { position } => {
                let mut s = String::from_str("Unexpected token at position ");
                let p = crate::number::usize_to_string(*position);
                s.append(p.as_str());
                s
            },
            ParseError::MalformedForm { form, position } => {
                let mut s = String::from_str("Malformed ");
                let fname = match form {
                    FormKind::Defun => "defun",
                    FormKind::Lambda => "lambda",
                    FormKind::If => "if",
                    FormKind::List => "list",
                    FormKind::BinaryOperation => "binary operation",
                    FormKind::Application => "application",
                };
                s.append(fname);
                s.append(" form at position ");
                let p = crate::number::usize_to_string(*position);
                s.append(p.as_str());
                s
            },
            ParseError::NestingTooDeep => String::from_str("Nesting too deep"),
        }
    }
}

/// The front half of the pipeline on a character stream: scan, parse, infer.
/// Lexical and parse failures are lifted into `SyntaxError`; nothing here
/// ever produces an `InternalError`.
pub open spec fn parse_source_spec(s: Seq<char>) -> Result<NodeV, crate::error::ErrV> {
    match crate::parser::token::scan(s) {
        Err(m) => Err(crate::error::ErrV::SyntaxError(m)),
        Ok(toks) => match parse_spec(toks) {
            Err(e) => Err(crate::error::ErrV::SyntaxError(parse_error_text(e))),
            Ok(n) => Ok(crate::ast::infer::infer_spec(n)),
        },
    }
}

/// Parses source text into its (type-inferred) syntax tree: scan, parse,
/// infer, with every failure lifted into [`TranspilerError::SyntaxError`].
pub fn parse_shen_source(input: &str) -> (r: Result<ShenNode, crate::error::TranspilerError>)
    ensures
        ({
            let g = parse_source_spec(input@);
            match r {
                Ok(n) => g == Ok::<NodeV, crate::error::ErrV>(n.deep_view()),
                Err(e) => g == Err::<NodeV, crate::error::ErrV>(e.deep_view()),
            }
        }),
        r is Err ==> r->Err_0 is SyntaxError,
{
    let tokens = match crate::parser::token::tokenize(input) {
        Ok(t) => t,
        Err(m) => {
            return Err(crate::error::TranspilerError::SyntaxError(m));
        },
    };
    let node = match parse(&tokens) {
        Ok(n) => n,
        Err(e) => {
            return Err(crate::error::TranspilerError::SyntaxError(e.message()));
        },
    };
    Ok(crate::ast::infer::infer_types(&node))
}

} // verus!
