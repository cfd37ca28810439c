//! Abstract syntax tree of the source language.

pub mod infer;

use vstd::prelude::*;

use crate::number::{NumV, ShenNumber};

verus! {

broadcast use vstd::std_specs::vec::group_vec_axioms, vstd::seq::group_seq_axioms;

/// Semantic type tags carried by tree nodes. Equality is structural;
/// `Symbol` is the default when a binding's type is unknown.
#[derive(Debug, Clone, Copy, PartialEq, Eq, Structural)]
pub enum ShenType {
    Integer,
    Float,
    String,
    Boolean,
    Symbol,
    List,
    Function,
    Nil,
}

impl DeepView for ShenType {
    type V = ShenType;

    open spec fn deep_view(&self) -> ShenType {
        *self
    }
}

/// Literal payloads: only literals carry values.
#[derive(Debug, PartialEq)]
pub enum ShenValue {
    Integer(i64),
    Float(ShenNumber),
    String(String),
    Boolean(bool),
    Nil,
}

/// Mathematical model of a [`ShenValue`].
#[verifier::ext_equal]
pub enum ValueV {
    Integer(int),
    Float(NumV),
    Str(Seq<char>),
    Boolean(bool),
    Nil,
}

impl DeepView for ShenValue {
    type V = ValueV;

    open spec fn deep_view(&self) -> ValueV {
        match self {
            ShenValue::Integer(i) => ValueV::Integer(*i as int),
            ShenValue::Float(n) => ValueV::Float(n@),
            ShenValue::String(s) => ValueV::Str(s@),
            ShenValue::Boolean(b) => ValueV::Boolean(*b),
            ShenValue::Nil => ValueV::Nil,
        }
    }
}

/// A node of the syntax tree. Every node owns its children outright:
/// the tree has no sharing and no cycles.
#[derive(Debug, PartialEq)]
pub enum ShenNode {
    Function {
        name: String,
        args: Vec<(String, ShenType)>,
        return_type: ShenType,
        body: Box<ShenNode>,
    },
    Application {
        func: Box<ShenNode>,
        args: Vec<ShenNode>,
    },
    Literal {
        value: ShenValue,
    },
    Symbol {
        name: String,
        type_hint: ShenType,
    },
    List {
        elements: Vec<ShenNode>,
        element_type: ShenType,
    },
    Lambda {
        args: Vec<(String, ShenType)>,
        return_type: ShenType,
        body: Box<ShenNode>,
    },
    Conditional {
        condition: Box<ShenNode>,
        true_branch: Box<ShenNode>,
        false_branch: Option<Box<ShenNode>>,
    },
    BinaryOperation {
        operator: String,
        left: Box<ShenNode>,
        right: Box<ShenNode>,
        result_type: ShenType,
    },
    Nil,
}

/// Mathematical model of a [`ShenNode`].
#[verifier::ext_equal]
pub enum NodeV {
    Function {
        name: Seq<char>,
        args: Seq<(Seq<char>, ShenType)>,
        return_type: ShenType,
        body: Box<NodeV>,
    },
    Application {
        func: Box<NodeV>,
        args: Seq<NodeV>,
    },
    Literal {
        value: ValueV,
    },
    Symbol {
        name: Seq<char>,
        type_hint: ShenType,
    },
    List {
        elements: Seq<NodeV>,
        element_type: ShenType,
    },
    Lambda {
        args: Seq<(Seq<char>, ShenType)>,
        return_type: ShenType,
        body: Box<NodeV>,
    },
    Conditional {
        condition: Box<NodeV>,
        true_branch: Box<NodeV>,
        false_branch: Option<Box<NodeV>>,
    },
    BinaryOperation {
        operator: Seq<char>,
        left: Box<NodeV>,
        right: Box<NodeV>,
        result_type: ShenType,
    },
    Nil,
}

/// Element-wise view of a sequence of nodes.
pub open spec fn nodes_view(s: Seq<ShenNode>) -> Seq<NodeV>
    decreases s,
{
    if s.len() == 0 {
        Seq::empty()
    } else {
        seq![node_view(s[0])] + nodes_view(s.subrange(1, s.len() as int))
    }
}

/// Recursive view of a node, shared by [`DeepView`] and the spec functions
/// on sequences of nodes.
pub open spec fn node_view(n: ShenNode) -> NodeV
    decreases n,
{
    match n {
        ShenNode::Function { name, args, return_type, body } => NodeV::Function {
            name: name@,
            args: args.deep_view(),
            return_type: return_type,
            body: Box::new(node_view(*body)),
        },
        ShenNode::Application { func, args } => NodeV::Application {
            func: Box::new(node_view(*func)),
            args: nodes_view(args@),
        },
        ShenNode::Literal { value } => NodeV::Literal { value: value.deep_view() },
        ShenNode::Symbol { name, type_hint } => NodeV::Symbol {
            name: name@,
            type_hint: type_hint,
        },
        ShenNode::List { elements, element_type } => NodeV::List {
            elements: nodes_view(elements@),
            element_type: element_type,
        },
        ShenNode::Lambda { args, return_type, body } => NodeV::Lambda {
            args: args.deep_view(),
            return_type: return_type,
            body: Box::new(node_view(*body)),
        },
        ShenNode::Conditional { condition, true_branch, false_branch } => NodeV::Conditional {
            condition: Box::new(node_view(*condition)),
            true_branch: Box::new(node_view(*true_branch)),
            false_branch: match false_branch {
                Some(f) => Some(Box::new(node_view(*f))),
                None => None,
            },
        },
        ShenNode::BinaryOperation { operator, left, right, result_type } => {
            NodeV::BinaryOperation {
                operator: operator@,
                left: Box::new(node_view(*left)),
                right: Box::new(node_view(*right)),
                result_type: result_type,
            }
        },
        ShenNode::Nil => NodeV::Nil,
    }
}

/// `nodes_view` is the element-wise [`node_view`].
pub proof fn lemma_nodes_view(s: Seq<ShenNode>)
    ensures
        nodes_view(s).len() == s.len(),
        forall|i: int| 0 <= i < s.len() ==> nodes_view(s)[i] == node_view(s[i]),
    decreases s.len(),
{
    if s.len() > 0 {
        lemma_nodes_view(s.subrange(1, s.len() as int));
    }
}

impl DeepView for ShenNode {
    type V = NodeV;

    open spec fn deep_view(&self) -> NodeV {
        node_view(*self)
    }
}

/// A vector's deep view is the element-wise node view.
pub proof fn lemma_vec_deep_is_nodes_view(v: Vec<ShenNode>)
    ensures
        v.deep_view() == nodes_view(v@),
{
    lemma_nodes_view(v@);
    assert forall|j: int| 0 <= j < v@.len() implies nodes_view(v@)[j] == v.deep_view()[j] by {
        assert(v.deep_view()[j] == v@[j].deep_view());
    }
    assert(v.deep_view() =~= nodes_view(v@));
}

/// ASCII lowering of one character; anything but `A`-`Z` is unchanged.
pub open spec fn lower_char(c: char) -> char {
    if c == 'A' {
        'a'
    } else if c == 'B' {
        'b'
    } else if c == 'C' {
        'c'
    } else if c == 'D' {
        'd'
    } else if c == 'E' {
        'e'
    } else if c == 'F' {
        'f'
    } else if c == 'G' {
        'g'
    } else if c == 'H' {
        'h'
    } else if c == 'I' {
        'i'
    } else if c == 'J' {
        'j'
    } else if c == 'K' {
        'k'
    } else if c == 'L' {
        'l'
    } else if c == 'M' {
        'm'
    } else if c == 'N' {
        'n'
    } else if c == 'O' {
        'o'
    } else if c == 'P' {
        'p'
    } else if c == 'Q' {
        'q'
    } else if c == 'R' {
        'r'
    } else if c == 'S' {
        's'
    } else if c == 'T' {
        't'
    } else if c == 'U' {
        'u'
    } else if c == 'V' {
        'v'
    } else if c == 'W' {
        'w'
    } else if c == 'X' {
        'x'
    } else if c == 'Y' {
        'y'
    } else if c == 'Z' {
        'z'
    } else {
        c
    }
}

/// ASCII lowering of a character sequence.
pub open spec fn lower(s: Seq<char>) -> Seq<char> {
    s.map_values(|c: char| lower_char(c))
}

/// Names that read as booleans, compared without regard to ASCII case.
pub open spec fn is_bool_name(s: Seq<char>) -> bool {
    lower(s) == "true"@ || lower(s) == "false"@
}

fn lower_char_x(c: char) -> (r: char)
    ensures
        r == lower_char(c),
{
    if c >= 'A' && c <= 'Z' {
        if c == 'A' {
            'a'
        } else if c == 'B' {
            'b'
        } else if c == 'C' {
            'c'
        } else if c == 'D' {
            'd'
        } else if c == 'E' {
            'e'
        } else if c == 'F' {
            'f'
        } else if c == 'G' {
            'g'
        } else if c == 'H' {
            'h'
        } else if c == 'I' {
            'i'
        } else if c == 'J' {
            'j'
        } else if c == 'K' {
            'k'
        } else if c == 'L' {
            'l'
        } else if c == 'M' {
            'm'
        } else if c == 'N' {
            'n'
        } else if c == 'O' {
            'o'
        } else if c == 'P' {
            'p'
        } else if c == 'Q' {
            'q'
        } else if c == 'R' {
            'r'
        } else if c == 'S' {
            's'
        } else if c == 'T' {
            't'
        } else if c == 'U' {
            'u'
        } else if c == 'V' {
            'v'
        } else if c == 'W' {
            'w'
        } else if c == 'X' {
            'x'
        } else if c == 'Y' {
            'y'
        } else {
            'z'
        }
    } else {
        c
    }
}

/// The ASCII-lowered copy of a string.
pub(crate) fn lower_x(s: &str) -> (r: String)
    ensures
        r@ == lower(s@),
{
    let v = crate::text::chars_of(s);
    let mut out = String::new();
    let mut i: usize = 0;
    while i < v.len()
        invariant
            i <= v@.len(),
            v@ == s@,
            out@ == lower(s@).take(i as int),
        decreases v@.len() - i,
    {
        crate::text::push_char(&mut out, lower_char_x(v[i]));
        proof {
            assert(out@ =~= lower(s@).take(i as int + 1));
        }
        i += 1;
    }
    proof {
        assert(lower(s@).take(s@.len() as int) =~= lower(s@));
    }
    out
}

fn is_bool_name_x(name: &str) -> (r: bool)
    ensures
        r == is_bool_name(name@),
{
    let lowered = lower_x(name);
    crate::text::str_eq(lowered.as_str(), "true") || crate::text::str_eq(lowered.as_str(),
        "false")
}

/// The type tag a node carries on its face: stored annotations where the
/// node has them, the true branch's tag for a conditional, `Symbol` for an
/// application.
pub open spec fn node_type(n: NodeV) -> ShenType
    decreases n,
{
    match n {
        NodeV::Literal { value } => match value {
            ValueV::Integer(_) => ShenType::Integer,
            ValueV::Float(_) => ShenType::Float,
            ValueV::Str(_) => ShenType::String,
            ValueV::Boolean(_) => ShenType::Boolean,
            ValueV::Nil => ShenType::Nil,
        },
        NodeV::Symbol { type_hint, .. } => type_hint,
        NodeV::List { .. } => ShenType::List,
        NodeV::Function { return_type, .. } => return_type,
        NodeV::Lambda { return_type, .. } => return_type,
        NodeV::Nil => ShenType::Nil,
        NodeV::BinaryOperation { result_type, .. } => result_type,
        NodeV::Conditional { true_branch, .. } => node_type(*true_branch),
        NodeV::Application { .. } => ShenType::Symbol,
    }
}

/// The type [`ShenNode::infer_type`] reports: as [`node_type`], except that
/// a symbol whose name reads as a number or a boolean is typed accordingly.
pub open spec fn inferred_type(n: NodeV) -> ShenType {
    match n {
        NodeV::Symbol { name, type_hint } => {
            if crate::number::is_i64_numeral(name) {
                ShenType::Integer
            } else if crate::number::is_signed_numeral(name) {
                ShenType::Float
            } else if is_bool_name(name) {
                ShenType::Boolean
            } else {
                type_hint
            }
        },
        _ => node_type(n),
    }
}

/// The symbol-name conversions [`try_convert_spec`] falls back to.
pub open spec fn complex_convert_spec(n: NodeV, target: ShenType) -> Option<NodeV> {
    match n {
        NodeV::List { .. } => if target == ShenType::List {
            Some(n)
        } else {
            None
        },
        NodeV::Symbol { name, .. } => {
            if target == ShenType::Integer {
                if crate::number::is_i64_numeral(name) {
                    Some(
                        NodeV::Literal {
                            value: ValueV::Integer(crate::number::int_numeral_value(name)),
                        },
                    )
                } else {
                    None
                }
            } else if target == ShenType::Float {
                if crate::number::is_signed_numeral(name) {
                    Some(
                        NodeV::Literal {
                            value: ValueV::Float(crate::number::signed_numeral_num(name)),
                        },
                    )
                } else {
                    None
                }
            } else if target == ShenType::Boolean {
                if lower(name) == "true"@ {
                    Some(NodeV::Literal { value: ValueV::Boolean(true) })
                } else if lower(name) == "false"@ {
                    Some(NodeV::Literal { value: ValueV::Boolean(false) })
                } else {
                    None
                }
            } else {
                None
            }
        },
        _ => None,
    }
}

/// What [`ShenNode::try_convert`] returns: the narrow literal-level
/// coercions, identity on an exact type match, and the symbol fallbacks.
pub open spec fn try_convert_spec(n: NodeV, target: ShenType) -> Option<NodeV> {
    let from = node_type(n);
    if from == ShenType::Integer && target == ShenType::Float {
        match n {
            NodeV::Literal { value: ValueV::Integer(i) } => Some(
                NodeV::Literal { value: ValueV::Float(crate::number::num_of_int(i)) },
            ),
            _ => None,
        }
    } else if from == ShenType::Float && target == ShenType::Integer {
        match n {
            NodeV::Literal { value: ValueV::Float(f) } => Some(
                NodeV::Literal {
                    value: ValueV::Integer(crate::number::sat_i64(f.trunc_value())),
                },
            ),
            _ => None,
        }
    } else if from == ShenType::Integer && target == ShenType::String {
        match n {
            NodeV::Literal { value: ValueV::Integer(i) } => Some(
                NodeV::Literal { value: ValueV::Str(crate::number::int_dec_seq(i)) },
            ),
            _ => None,
        }
    } else if from == ShenType::Float && target == ShenType::String {
        match n {
            NodeV::Literal { value: ValueV::Float(f) } => Some(
                NodeV::Literal { value: ValueV::Str(f.display_text()) },
            ),
            _ => None,
        }
    } else if from == ShenType::Integer && target == ShenType::Boolean {
        match n {
            NodeV::Literal { value: ValueV::Integer(i) } => Some(
                NodeV::Literal { value: ValueV::Boolean(i != 0) },
            ),
            _ => None,
        }
    } else if from == ShenType::Float && target == ShenType::Boolean {
        match n {
            NodeV::Literal { value: ValueV::Float(f) } => Some(
                NodeV::Literal { value: ValueV::Boolean(!f.is_zero()) },
            ),
            _ => None,
        }
    } else if from == target {
        Some(n)
    } else {
        complex_convert_spec(n, target)
    }
}

impl Clone for ShenValue {
    fn clone(&self) -> (r: Self)
        ensures
            r.deep_view() == self.deep_view(),
    {
        match self {
            ShenValue::Integer(i) => ShenValue::Integer(*i),
            ShenValue::Float(n) => ShenValue::Float(n.clone()),
            ShenValue::String(s) => ShenValue::String(s.clone()),
            ShenValue::Boolean(b) => ShenValue::Boolean(*b),
            ShenValue::Nil => ShenValue::Nil,
        }
    }
}

pub(crate) fn clone_params(v: &Vec<(String, ShenType)>) -> (r: Vec<(String, ShenType)>)
    ensures
        r.deep_view() == v.deep_view(),
{
    let mut r: Vec<(String, ShenType)> = Vec::new();
    let mut i: usize = 0;
    while i < v.len()
        invariant
            i <= v@.len(),
            r.deep_view() =~= v.deep_view().take(i as int),
        decreases v@.len() - i,
    {
        let (name, t) = &v[i];
        let p = (name.clone(), *t);
        proof {
            assert(p.deep_view() == v.deep_view()[i as int]);
        }
        let ghost old_r = r.deep_view();
        r.push(p);
        proof {
            assert(r.deep_view() =~= old_r.push(v.deep_view()[i as int]));
            assert(r.deep_view() =~= v.deep_view().take(i as int + 1));
        }
        i += 1;
    }
    proof {
        assert(v.deep_view().take(v@.len() as int) =~= v.deep_view());
    }
    r
}

fn clone_nodes(v: &Vec<ShenNode>) -> (r: Vec<ShenNode>)
    ensures
        r.deep_view() == v.deep_view(),
    decreases v,
{
    let mut r: Vec<ShenNode> = Vec::new();
    let mut i: usize = 0;
    while i < v.len()
        invariant
            i <= v@.len(),
            r.deep_view() =~= v.deep_view().take(i as int),
        decreases v@.len() - i,
    {
        let c = v[i].clone();
        proof {
            assert(c.deep_view() == v.deep_view()[i as int]);
        }
        let ghost old_r = r.deep_view();
        r.push(c);
        proof {
            assert(r.deep_view() =~= old_r.push(v.deep_view()[i as int]));
            assert(r.deep_view() =~= v.deep_view().take(i as int + 1));
        }
        i += 1;
    }
    proof {
        assert(v.deep_view().take(v@.len() as int) =~= v.deep_view());
    }
    r
}

impl Clone for ShenNode {
    /// A deep copy: the copy's mathematical view is the original's.
    fn clone(&self) -> (r: Self)
        ensures
            r.deep_view() == self.deep_view(),
        decreases self,
    {
        match self {
            ShenNode::Function { name, args, return_type, body } => {
                let r = ShenNode::Function {
                    name: name.clone(),
                    args: clone_params(args),
                    return_type: *return_type,
                    body: Box::new((**body).clone()),
                };
                r
            },
            ShenNode::Application { func, args } => {
                let cargs = clone_nodes(args);
                proof {
                    lemma_nodes_view(args@);
                    lemma_nodes_view(cargs@);
                    assert(cargs@.len() == args@.len()) by {
                        assert(cargs.deep_view().len() == args.deep_view().len());
                    }
                    assert forall|k: int| 0 <= k < args@.len() implies nodes_view(cargs@)[k]
                        == nodes_view(args@)[k] by {
                        assert(cargs.deep_view()[k] == args.deep_view()[k]);
                        assert(cargs.deep_view()[k] == node_view(cargs@[k]));
                        assert(args.deep_view()[k] == node_view(args@[k]));
                    }
                    assert(nodes_view(cargs@) =~= nodes_view(args@));
                }
                ShenNode::Application { func: Box::new((**func).clone()), args: cargs }
            },
            ShenNode::Literal { value } => ShenNode::Literal { value: value.clone() },
            ShenNode::Symbol { name, type_hint } => ShenNode::Symbol {
                name: name.clone(),
                type_hint: *type_hint,
            },
            ShenNode::List { elements, element_type } => {
                let celems = clone_nodes(elements);
                proof {
                    lemma_nodes_view(elements@);
                    lemma_nodes_view(celems@);
                    assert(celems@.len() == elements@.len()) by {
                        assert(celems.deep_view().len() == elements.deep_view().len());
                    }
                    assert forall|k: int| 0 <= k < elements@.len() implies nodes_view(celems@)[k]
                        == nodes_view(elements@)[k] by {
                        assert(celems.deep_view()[k] == elements.deep_view()[k]);
                        assert(celems.deep_view()[k] == node_view(celems@[k]));
                        assert(elements.deep_view()[k] == node_view(elements@[k]));
                    }
                    assert(nodes_view(celems@) =~= nodes_view(elements@));
                }
                ShenNode::List { elements: celems, element_type: *element_type }
            },
            ShenNode::Lambda { args, return_type, body } => ShenNode::Lambda {
                args: clone_params(args),
                return_type: *return_type,
                body: Box::new((**body).clone()),
            },
            ShenNode::Conditional { condition, true_branch, false_branch } => {
                ShenNode::Conditional {
                    condition: Box::new((**condition).clone()),
                    true_branch: Box::new((**true_branch).clone()),
                    false_branch: match false_branch {
                        Some(f) => Some(Box::new((**f).clone())),
                        None => None,
                    },
                }
            },
            ShenNode::BinaryOperation { operator, left, right, result_type } => {
                ShenNode::BinaryOperation {
                    operator: operator.clone(),
                    left: Box::new((**left).clone()),
                    right: Box::new((**right).clone()),
                    result_type: *result_type,
                }
            },
            ShenNode::Nil => ShenNode::Nil,
        }
    }
}

impl ShenNode {
    /// The type tag on the node's face, per [`node_type`].
    pub fn get_type(&self) -> (t: ShenType)
        ensures
            t == node_type(self.deep_view()),
        decreases self,
    {
        match self {
            ShenNode::Literal { value } => match value {
                ShenValue::Integer(_) => ShenType::Integer,
                ShenValue::Float(_) => ShenType::Float,
                ShenValue::String(_) => ShenType::String,
                ShenValue::Boolean(_) => ShenType::Boolean,
                ShenValue::Nil => ShenType::Nil,
            },
            ShenNode::Symbol { type_hint, .. } => *type_hint,
            ShenNode::List { .. } => ShenType::List,
            ShenNode::Function { return_type, .. } => *return_type,
            ShenNode::Lambda { return_type, .. } => *return_type,
            ShenNode::Nil => ShenType::Nil,
            ShenNode::BinaryOperation { result_type, .. } => *result_type,
            ShenNode::Conditional { true_branch, .. } => true_branch.get_type(),
            ShenNode::Application { .. } => ShenType::Symbol,
        }
    }

    /// The most appropriate type for the node, per [`inferred_type`]: as
    /// [`Self::get_type`], but a symbol named like a number or boolean is
    /// typed as that literal would be.
    pub fn infer_type(&self) -> (t: ShenType)
        ensures
            t == inferred_type(self.deep_view()),
    {
        match self {
            ShenNode::Symbol { name, type_hint } => {
                if crate::number::parse_i64(name.as_str()).is_some() {
                    ShenType::Integer
                } else if ShenNumber::from_literal(name.as_str()).is_some() {
                    ShenType::Float
                } else if is_bool_name_x(name.as_str()) {
                    ShenType::Boolean
                } else {
                    *type_hint
                }
            },
            _ => self.get_type(),
        }
    }

    /// The narrow literal-level coercions of [`try_convert_spec`]: numeric
    /// widening and truncation, decimal rendering to a string, nonzero to
    /// boolean, identity on an exact match, and parsing of symbol names.
    pub fn try_convert(&self, target_type: &ShenType) -> (r: Option<ShenNode>)
        ensures
            ({
                let g = try_convert_spec(self.deep_view(), *target_type);
                match r {
                    Some(n) => g == Some(n.deep_view()),
                    None => g is None,
                }
            }),
    {
        let from = self.get_type();
        let target = *target_type;
        if from == ShenType::Integer && target == ShenType::Float {
            match self {
                ShenNode::Literal { value: ShenValue::Integer(i) } => Some(
                    ShenNode::Literal { value: ShenValue::Float(ShenNumber::from_i64(*i)) },
                ),
                _ => None,
            }
        } else if from == ShenType::Float && target == ShenType::Integer {
            match self {
                ShenNode::Literal { value: ShenValue::Float(f) } => Some(
                    ShenNode::Literal { value: ShenValue::Integer(f.to_i64_saturating()) },
                ),
                _ => None,
            }
        } else if from == ShenType::Integer && target == ShenType::String {
            match self {
                ShenNode::Literal { value: ShenValue::Integer(i) } => Some(
                    ShenNode::Literal {
                        value: ShenValue::String(crate::number::i64_to_string(*i)),
                    },
                ),
                _ => None,
            }
        } else if from == ShenType::Float && target == ShenType::String {
            match self {
                ShenNode::Literal { value: ShenValue::Float(f) } => Some(
                    ShenNode::Literal { value: ShenValue::String(f.display_text()) },
                ),
                _ => None,
            }
        } else if from == ShenType::Integer && target == ShenType::Boolean {
            match self {
                ShenNode::Literal { value: ShenValue::Integer(i) } => Some(
                    ShenNode::Literal { value: ShenValue::Boolean(*i != 0) },
                ),
                _ => None,
            }
        } else if from == ShenType::Float && target == ShenType::Boolean {
            match self {
                ShenNode::Literal { value: ShenValue::Float(f) } => Some(
                    ShenNode::Literal { value: ShenValue::Boolean(!f.is_zero()) },
                ),
                _ => None,
            }
        } else if from == target {
            Some(self.clone())
        } else {
            self.complex_convert(target)
        }
    }

    fn complex_convert(&self, target: ShenType) -> (r: Option<ShenNode>)
        ensures
            ({
                let g = complex_convert_spec(self.deep_view(), target);
                match r {
                    Some(n) => g == Some(n.deep_view()),
                    None => g is None,
                }
            }),
    {
        match self {
            ShenNode::List { .. } => if target == ShenType::List {
                Some(self.clone())
            } else {
                None
            },
            ShenNode::Symbol { name, .. } => {
                if target == ShenType::Integer {
                    match crate::number::parse_i64(name.as_str()) {
                        Some(i) => Some(ShenNode::Literal { value: ShenValue::Integer(i) }),
                        None => None,
                    }
                } else if target == ShenType::Float {
                    match ShenNumber::from_literal(name.as_str()) {
                        Some(n) => Some(ShenNode::Literal { value: ShenValue::Float(n) }),
                        None => None,
                    }
                } else if target == ShenType::Boolean {
                    let lowered = lower_x(name.as_str());
                    if crate::text::str_eq(lowered.as_str(), "true") {
                        Some(ShenNode::Literal { value: ShenValue::Boolean(true) })
                    } else if crate::text::str_eq(lowered.as_str(), "false") {
                        Some(ShenNode::Literal { value: ShenValue::Boolean(false) })
                    } else {
                        None
                    }
                } else {
                    None
                }
            },
            _ => None,
        }
    }
}

} // verus!
