//! Shallow type inference: one bottom-up pass that reclassifies symbols
//! named like numbers or booleans, types binary operations from their
//! operator and operands, unifies list element types, and sets function and
//! lambda return types from their bodies. The pass is idempotent: running
//! it twice gives the tree the first run gave.

use vstd::prelude::*;

use crate::ast::{NodeV, ShenNode, ShenType, ShenValue, ValueV, node_type, node_view, nodes_view,
    lemma_nodes_view, is_bool_name, lower};
use crate::number::{ShenNumber, is_i64_numeral, is_signed_numeral, int_numeral_value,
    signed_numeral_num, parse_i64};
use crate::text::str_eq;

verus! {

broadcast use vstd::std_specs::vec::group_vec_axioms, vstd::seq::group_seq_axioms;

/// What inference makes of a symbol: a literal when the name reads as an
/// integer, a float or a boolean, otherwise the symbol unchanged.
pub open spec fn reclass_symbol(name: Seq<char>, type_hint: ShenType) -> NodeV {
    if is_i64_numeral(name) {
        NodeV::Literal { value: ValueV::Integer(int_numeral_value(name)) }
    } else if is_signed_numeral(name) {
        NodeV::Literal { value: ValueV::Float(signed_numeral_num(name)) }
    } else if is_bool_name(name) {
        NodeV::Literal { value: ValueV::Boolean(lower(name) == "true"@) }
    } else {
        NodeV::Symbol { name, type_hint }
    }
}

pub open spec fn is_comparison_op(op: Seq<char>) -> bool {
    op == "="@ || op == "<"@ || op == ">"@ || op == "<="@ || op == ">="@
}

pub open spec fn is_arith_op(op: Seq<char>) -> bool {
    op == "+"@ || op == "-"@ || op == "*"@ || op == "/"@
}

/// An operand that forces a floating result: a float, or a symbol left
/// free after inference.
pub open spec fn is_floatish(n: NodeV) -> bool {
    node_type(n) == ShenType::Float || n is Symbol
}

/// The result type of a binary operation over already-inferred operands:
/// comparisons are boolean; arithmetic is float unless both operands are
/// known not to be; an unknown operator keeps its previous annotation.
pub open spec fn binop_result_type(op: Seq<char>, l: NodeV, r: NodeV, prev: ShenType) -> ShenType {
    if is_comparison_op(op) {
        ShenType::Boolean
    } else if is_arith_op(op) {
        if is_floatish(l) || is_floatish(r) {
            ShenType::Float
        } else {
            ShenType::Integer
        }
    } else {
        prev
    }
}

/// The unified element type of a list: the common type of the elements if
/// they all agree, else `Symbol`; an empty list is left at `Symbol`.
pub open spec fn list_elem_type(elems: Seq<NodeV>) -> ShenType {
    if elems.len() == 0 {
        ShenType::Symbol
    } else if forall|i: int|
        0 <= i < elems.len() ==> node_type(#[trigger] elems[i]) == node_type(elems[0]) {
        node_type(elems[0])
    } else {
        ShenType::Symbol
    }
}

/// The inference pass itself, on the mathematical tree.
pub open spec fn infer_spec(n: NodeV) -> NodeV
    decreases n,
{
    match n {
        NodeV::Function { name, args, return_type, body } => {
            let b = infer_spec(*body);
            NodeV::Function { name, args, return_type: node_type(b), body: Box::new(b) }
        },
        NodeV::Lambda { args, return_type, body } => {
            let b = infer_spec(*body);
            NodeV::Lambda { args, return_type: node_type(b), body: Box::new(b) }
        },
        NodeV::Application { func, args } => NodeV::Application {
            func: Box::new(infer_spec(*func)),
            args: infer_seq(args),
        },
        NodeV::Literal { .. } => n,
        NodeV::Symbol { name, type_hint } => reclass_symbol(name, type_hint),
        NodeV::List { elements, element_type } => {
            let es = infer_seq(elements);
            NodeV::List { elements: es, element_type: list_elem_type(es) }
        },
        NodeV::Conditional { condition, true_branch, false_branch } => NodeV::Conditional {
            condition: Box::new(infer_spec(*condition)),
            true_branch: Box::new(infer_spec(*true_branch)),
            false_branch: match false_branch {
                Some(f) => Some(Box::new(infer_spec(*f))),
                None => None,
            },
        },
        NodeV::BinaryOperation { operator, left, right, result_type } => {
            let l = infer_spec(*left);
            let r = infer_spec(*right);
            NodeV::BinaryOperation {
                operator,
                left: Box::new(l),
                right: Box::new(r),
                result_type: binop_result_type(operator, l, r, result_type),
            }
        },
        NodeV::Nil => n,
    }
}

pub open spec fn infer_seq(s: Seq<NodeV>) -> Seq<NodeV>
    decreases s,
{
    if s.len() == 0 {
        Seq::empty()
    } else {
        seq![infer_spec(s[0])] + infer_seq(s.subrange(1, s.len() as int))
    }
}

/// `infer_seq` is the element-wise pass.
pub proof fn lemma_infer_seq(s: Seq<NodeV>)
    ensures
        infer_seq(s).len() == s.len(),
        forall|i: int| 0 <= i < s.len() ==> infer_seq(s)[i] == infer_spec(#[trigger] s[i]),
    decreases s.len(),
{
    if s.len() > 0 {
        lemma_infer_seq(s.subrange(1, s.len() as int));
        assert forall|i: int| 0 <= i < s.len() implies infer_seq(s)[i] == infer_spec(
            #[trigger] s[i]) by {
            if i > 0 {
                assert(s.subrange(1, s.len() as int)[i - 1] == s[i]);
            }
        }
    }
}

/// Inference is idempotent: a second pass changes nothing.
pub proof fn lemma_infer_idempotent(n: NodeV)
    ensures
        infer_spec(infer_spec(n)) == infer_spec(n),
    decreases n,
{
    match n {
        NodeV::Function { name, args, return_type, body } => {
            lemma_infer_idempotent(*body);
        },
        NodeV::Lambda { args, return_type, body } => {
            lemma_infer_idempotent(*body);
        },
        NodeV::Application { func, args } => {
            lemma_infer_idempotent(*func);
            lemma_infer_seq_idempotent(args);
        },
        NodeV::Literal { .. } => {},
        NodeV::Symbol { name, type_hint } => {},
        NodeV::List { elements, element_type } => {
            lemma_infer_seq_idempotent(elements);
        },
        NodeV::Conditional { condition, true_branch, false_branch } => {
            lemma_infer_idempotent(*condition);
            lemma_infer_idempotent(*true_branch);
            match false_branch {
                Some(f) => {
                    lemma_infer_idempotent(*f);
                },
                None => {},
            }
        },
        NodeV::BinaryOperation { operator, left, right, result_type } => {
            lemma_infer_idempotent(*left);
            lemma_infer_idempotent(*right);
        },
        NodeV::Nil => {},
    }
}

pub proof fn lemma_infer_seq_idempotent(s: Seq<NodeV>)
    ensures
        infer_seq(infer_seq(s)) == infer_seq(s),
    decreases s,
{
    lemma_infer_seq(s);
    lemma_infer_seq(infer_seq(s));
    assert forall|i: int| 0 <= i < s.len() implies infer_seq(infer_seq(s))[i] == infer_seq(s)[i]
        by {
        lemma_infer_idempotent(s[i]);
    }
    assert(infer_seq(infer_seq(s)) =~= infer_seq(s));
}

fn infer_nodes(v: &Vec<ShenNode>) -> (r: Vec<ShenNode>)
    ensures
        r.deep_view() == infer_seq(nodes_view(v@)),
    decreases v,
{
    let ghost orig = nodes_view(v@);
    proof {
        lemma_nodes_view(v@);
        lemma_infer_seq(orig);
    }
    let mut out: Vec<ShenNode> = Vec::new();
    let mut k: usize = 0;
    while k < v.len()
        invariant
            k <= v@.len(),
            orig == nodes_view(v@),
            orig.len() == v@.len(),
            forall|j: int| 0 <= j < v@.len() ==> orig[j] == node_view(#[trigger] v@[j]),
            infer_seq(orig).len() == orig.len(),
            forall|j: int| 0 <= j < orig.len() ==> infer_seq(orig)[j] == infer_spec(
                #[trigger] orig[j]),
            out.deep_view() =~= infer_seq(orig).take(k as int),
        decreases v@.len() - k,
    {
        let inferred = infer_types(&v[k]);
        let ghost old_out = out.deep_view();
        out.push(inferred);
        proof {
            assert(out.deep_view() =~= old_out.push(infer_spec(orig[k as int])));
            assert(out.deep_view() =~= infer_seq(orig).take(k as int + 1));
        }
        k += 1;
    }
    proof {
        assert(infer_seq(orig).take(orig.len() as int) =~= infer_seq(orig));
    }
    out
}

/// Runs the inference pass over a tree: the result is exactly
/// [`infer_spec`] of it. Inference is total and never fails.
pub fn infer_types(node: &ShenNode) -> (r: ShenNode)
    ensures
        r.deep_view() == infer_spec(node.deep_view()),
    decreases node,
{
    match node {
        ShenNode::Function { name, args, return_type, body } => {
            let b = infer_types(body);
            let rt = b.get_type();
            ShenNode::Function {
                name: name.clone(),
                args: crate::ast::clone_params(args),
                return_type: rt,
                body: Box::new(b),
            }
        },
        ShenNode::Lambda { args, return_type, body } => {
            let b = infer_types(body);
            let rt = b.get_type();
            ShenNode::Lambda {
                args: crate::ast::clone_params(args),
                return_type: rt,
                body: Box::new(b),
            }
        },
        ShenNode::Application { func, args } => {
            let f = infer_types(func);
            let a = infer_nodes(args);
            proof {
                crate::ast::lemma_vec_deep_is_nodes_view(a);
            }
            ShenNode::Application { func: Box::new(f), args: a }
        },
        ShenNode::Literal { value } => ShenNode::Literal { value: value.clone() },
        ShenNode::Symbol { name, type_hint } => {
            match parse_i64(name.as_str()) {
                Some(i) => ShenNode::Literal { value: ShenValue::Integer(i) },
                None => match ShenNumber::from_literal(name.as_str()) {
                    Some(f) => ShenNode::Literal { value: ShenValue::Float(f) },
                    None => {
                        let lowered = crate::ast::lower_x(name.as_str());
                        if str_eq(lowered.as_str(), "true") {
                            ShenNode::Literal { value: ShenValue::Boolean(true) }
                        } else if str_eq(lowered.as_str(), "false") {
                            ShenNode::Literal { value: ShenValue::Boolean(false) }
                        } else {
                            ShenNode::Symbol { name: name.clone(), type_hint: *type_hint }
                        }
                    },
                },
            }
        },
        ShenNode::List { elements, element_type } => {
            let es = infer_nodes(elements);
            let et = common_elem_type(&es);
            proof {
                crate::ast::lemma_vec_deep_is_nodes_view(es);
            }
            ShenNode::List { elements: es, element_type: et }
        },
        ShenNode::Conditional { condition, true_branch, false_branch } => {
            let c = infer_types(condition);
            let tb = infer_types(true_branch);
            let fb = match false_branch {
                Some(f) => Some(Box::new(infer_types(f))),
                None => None,
            };
            ShenNode::Conditional {
                condition: Box::new(c),
                true_branch: Box::new(tb),
                false_branch: fb,
            }
        },
        ShenNode::BinaryOperation { operator, left, right, result_type } => {
            let l = infer_types(left);
            let r = infer_types(right);
            let rt = binop_result_type_exec(operator, &l, &r, *result_type);
            ShenNode::BinaryOperation {
                operator: operator.clone(),
                left: Box::new(l),
                right: Box::new(r),
                result_type: rt,
            }
        },
        ShenNode::Nil => ShenNode::Nil,
    }
}

fn binop_result_type_exec(op: &String, l: &ShenNode, r: &ShenNode, prev: ShenType) -> (t:
    ShenType)
    ensures
        t == binop_result_type(op@, l.deep_view(), r.deep_view(), prev),
{
    let s = op.as_str();
    if str_eq(s, "=") || str_eq(s, "<") || str_eq(s, ">") || str_eq(s, "<=") || str_eq(s, ">=") {
        ShenType::Boolean
    } else if str_eq(s, "+") || str_eq(s, "-") || str_eq(s, "*") || str_eq(s, "/") {
        if is_floatish_exec(l) || is_floatish_exec(r) {
            ShenType::Float
        } else {
            ShenType::Integer
        }
    } else {
        prev
    }
}

fn is_floatish_exec(n: &ShenNode) -> (b: bool)
    ensures
        b == is_floatish(n.deep_view()),
{
    if n.get_type() == ShenType::Float {
        true
    } else {
        match n {
            ShenNode::Symbol { .. } => true,
            _ => false,
        }
    }
}

fn common_elem_type(es: &Vec<ShenNode>) -> (t: ShenType)
    ensures
        t == list_elem_type(nodes_view(es@)),
{
    proof {
        lemma_nodes_view(es@);
    }
    if es.len() == 0 {
        return ShenType::Symbol;
    }
    let t0 = es[0].get_type();
    let mut i: usize = 1;
    while i < es.len()
        invariant
            1 <= i <= es@.len(),
            es@.len() > 0,
            nodes_view(es@).len() == es@.len(),
            forall|j: int| 0 <= j < es@.len() ==> nodes_view(es@)[j] == node_view(
                #[trigger] es@[j]),
            t0 == node_type(nodes_view(es@)[0]),
            forall|j: int| 0 <= j < i ==> node_type(#[trigger] nodes_view(es@)[j]) == t0,
        decreases es@.len() - i,
    {
        if es[i].get_type() != t0 {
            proof {
                assert(node_type(nodes_view(es@)[i as int]) != t0);
            }
            return ShenType::Symbol;
        }
        i += 1;
    }
    t0
}

} // verus!
