//! Lowering of parsed operations to tensor-graph steps.
//!
//! Lowering decides, for each operation, which graph step it stands for and
//! with which operands and parameters; building the graph itself is left to
//! whoever holds the graph, one step at a time.
use vstd::prelude::*;

use crate::ast::{
    Attr,
    AttrView,
    Operation,
    OperationView,
};
use crate::shape::{
    output_shape_spec,
    try_parse_output_shape_from_op,
};
use crate::text::str_eq;

verus! {

broadcast use vstd::string::group_string_axioms;

/// Element-wise operations on one tensor.
#[derive(Debug, Clone, Copy, PartialEq, Eq, Structural)]
pub enum UnaryOp {
    Abs,
    Negate,
    Sqrt,
    Log,
    Exp,
}

/// Element-wise operations on two tensors.
#[derive(Debug, Clone, Copy, PartialEq, Eq, Structural)]
pub enum BinaryOp {
    Add,
    Subtract,
    Multiply,
    Divide,
    Remainder,
    Maximum,
    Minimum,
}

/// The supported operations, by the way they are lowered.
#[derive(Debug, Clone, Copy, PartialEq, Eq, Structural)]
pub enum LowerKind {
    Unary(UnaryOp),
    Binary(BinaryOp),
    Reshape,
    BroadcastInDim,
    Concatenate,
    Constant,
    Reduce,
    Return,
}

/// How each supported operation name is lowered.
pub open spec fn lookup_spec(op: Seq<char>) -> Option<LowerKind> {
    if op == "stablehlo.abs"@ {
        Some(LowerKind::Unary(UnaryOp::Abs))
    } else if op == "stablehlo.negate"@ {
        Some(LowerKind::Unary(UnaryOp::Negate))
    } else if op == "stablehlo.sqrt"@ {
        Some(LowerKind::Unary(UnaryOp::Sqrt))
    } else if op == "stablehlo.log"@ {
        Some(LowerKind::Unary(UnaryOp::Log))
    } else if op == "stablehlo.exponential"@ {
        Some(LowerKind::Unary(UnaryOp::Exp))
    } else if op == "stablehlo.add"@ {
        Some(LowerKind::Binary(BinaryOp::Add))
    } else if op == "stablehlo.subtract"@ {
        Some(LowerKind::Binary(BinaryOp::Subtract))
    } else if op == "stablehlo.multiply"@ {
        Some(LowerKind::Binary(BinaryOp::Multiply))
    } else if op == "stablehlo.divide"@ {
        Some(LowerKind::Binary(BinaryOp::Divide))
    } else if op == "stablehlo.remainder"@ {
        Some(LowerKind::Binary(BinaryOp::Remainder))
    } else if op == "stablehlo.maximum"@ {
        Some(LowerKind::Binary(BinaryOp::Maximum))
    } else if op == "stablehlo.minimum"@ {
        Some(LowerKind::Binary(BinaryOp::Minimum))
    } else if op == "stablehlo.reshape"@ {
        Some(LowerKind::Reshape)
    } else if op == "stablehlo.broadcast_in_dim"@ {
        Some(LowerKind::BroadcastInDim)
    } else if op == "stablehlo.concatenate"@ {
        Some(LowerKind::Concatenate)
    } else if op == "stablehlo.constant"@ {
        Some(LowerKind::Constant)
    } else if op == "stablehlo.reduce"@ {
        Some(LowerKind::Reduce)
    } else if op == "return"@ {
        Some(LowerKind::Return)
    } else {
        None
    }
}

/// How the operation named `op` is lowered, if it is supported.
pub fn lookup(op: &str) -> (r: Option<LowerKind>)
    ensures
        r == lookup_spec(op@),
{
    let f = if str_eq(op, "stablehlo.abs") {
        LowerKind::Unary(UnaryOp::Abs)
    } else if str_eq(op, "stablehlo.negate") {
        LowerKind::Unary(UnaryOp::Negate)
    } else if str_eq(op, "stablehlo.sqrt") {
        LowerKind::Unary(UnaryOp::Sqrt)
    } else if str_eq(op, "stablehlo.log") {
        LowerKind::Unary(UnaryOp::Log)
    } else if str_eq(op, "stablehlo.exponential") {
        LowerKind::Unary(UnaryOp::Exp)
    } else if str_eq(op, "stablehlo.add") {
        LowerKind::Binary(BinaryOp::Add)
    } else if str_eq(op, "stablehlo.subtract") {
        LowerKind::Binary(BinaryOp::Subtract)
    } else if str_eq(op, "stablehlo.multiply") {
        LowerKind::Binary(BinaryOp::Multiply)
    } else if str_eq(op, "stablehlo.divide") {
        LowerKind::Binary(BinaryOp::Divide)
    } else if str_eq(op, "stablehlo.remainder") {
        LowerKind::Binary(BinaryOp::Remainder)
    } else if str_eq(op, "stablehlo.maximum") {
        LowerKind::Binary(BinaryOp::Maximum)
    } else if str_eq(op, "stablehlo.minimum") {
        LowerKind::Binary(BinaryOp::Minimum)
    } else if str_eq(op, "stablehlo.reshape") {
        LowerKind::Reshape
    } else if str_eq(op, "stablehlo.broadcast_in_dim") {
        LowerKind::BroadcastInDim
    } else if str_eq(op, "stablehlo.concatenate") {
        LowerKind::Concatenate
    } else if str_eq(op, "stablehlo.constant") {
        LowerKind::Constant
    } else if str_eq(op, "stablehlo.reduce") {
        LowerKind::Reduce
    } else if str_eq(op, "return") {
        LowerKind::Return
    } else {
        return None;
    };
    Some(f)
}

/// The value of a constant: a floating-point literal as written, or an integer.
#[derive(Debug, PartialEq)]
pub enum ConstValue {
    Float(String),
    Int(i64),
}

/// One graph step. Tensors are named by the names of the values they stand for.
#[derive(Debug, PartialEq)]
pub enum LowerStep {
    /// `output = op(input)`.
    Unary { op: UnaryOp, input: String, output: String },
    /// `output = op(lhs, rhs)`, a rank-0 side broadcast to the other side's shape.
    Binary { op: BinaryOp, lhs: String, rhs: String, output: String },
    /// `output = input` reshaped to `shape`.
    Reshape { input: String, shape: Vec<usize>, output: String },
    /// `output = input` expanded along `dims`.
    Expand { input: String, dims: Vec<usize>, output: String },
    /// `output = lhs` and `rhs` concatenated along `dim`.
    Concat { lhs: String, rhs: String, dim: usize, output: String },
    /// `output = value`, marked to be retrieved.
    Constant { value: ConstValue, output: String },
    /// `output = input` summed over `dims`.
    SumReduce { input: String, dims: Vec<usize>, output: String },
    /// The value `name` is marked to be retrieved.
    Retrieve { name: String },
    /// Nothing is done.
    Nothing,
}

pub enum ConstValueView {
    Float(Seq<char>),
    Int(int),
}

/// The mathematical view of a graph step.
pub enum LowerStepView {
    Unary { op: UnaryOp, input: Seq<char>, output: Seq<char> },
    Binary { op: BinaryOp, lhs: Seq<char>, rhs: Seq<char>, output: Seq<char> },
    Reshape { input: Seq<char>, shape: Seq<usize>, output: Seq<char> },
    Expand { input: Seq<char>, dims: Seq<usize>, output: Seq<char> },
    Concat { lhs: Seq<char>, rhs: Seq<char>, dim: usize, output: Seq<char> },
    Constant { value: ConstValueView, output: Seq<char> },
    SumReduce { input: Seq<char>, dims: Seq<usize>, output: Seq<char> },
    Retrieve { name: Seq<char> },
    Nothing,
}

impl View for LowerStep {
    type V = LowerStepView;

    open spec fn view(&self) -> LowerStepView {
        match self {
            LowerStep::Unary { op, input, output } => LowerStepView::Unary {
                op: *op,
                input: input@,
                output: output@,
            },
            LowerStep::Binary { op, lhs, rhs, output } => LowerStepView::Binary {
                op: *op,
                lhs: lhs@,
                rhs: rhs@,
                output: output@,
            },
            LowerStep::Reshape { input, shape, output } => LowerStepView::Reshape {
                input: input@,
                shape: shape@,
                output: output@,
            },
            LowerStep::Expand { input, dims, output } => LowerStepView::Expand {
                input: input@,
                dims: dims@,
                output: output@,
            },
            LowerStep::Concat { lhs, rhs, dim, output } => LowerStepView::Concat {
                lhs: lhs@,
                rhs: rhs@,
                dim: *dim,
                output: output@,
            },
            LowerStep::Constant { value, output } => LowerStepView::Constant {
                value: match value {
                    ConstValue::Float(f) => ConstValueView::Float(f@),
                    ConstValue::Int(i) => ConstValueView::Int(*i as int),
                },
                output: output@,
            },
            LowerStep::SumReduce { input, dims, output } => LowerStepView::SumReduce {
                input: input@,
                dims: dims@,
                output: output@,
            },
            LowerStep::Retrieve { name } => LowerStepView::Retrieve { name: name@ },
            LowerStep::Nothing => LowerStepView::Nothing,
        }
    }
}

/// Why an operation could not be lowered.
#[derive(Debug, PartialEq)]
pub enum LowerError {
    /// The operation with this name is not supported.
    Unsupported(String),
    /// A `broadcast_in_dim` without an integer list `dims`.
    BroadcastMissingDims,
    /// A `constant` without a `dense` literal.
    ConstantMissingDense,
    /// A `reduce` whose `apply` is not `stablehlo.add`; the `apply` found, if any.
    UnsupportedReduce(Option<Attr>),
}

pub enum LowerErrorView {
    Unsupported(Seq<char>),
    BroadcastMissingDims,
    ConstantMissingDense,
    UnsupportedReduce(Option<AttrView>),
}

impl View for LowerError {
    type V = LowerErrorView;

    open spec fn view(&self) -> LowerErrorView {
        match self {
            LowerError::Unsupported(s) => LowerErrorView::Unsupported(s@),
            LowerError::BroadcastMissingDims => LowerErrorView::BroadcastMissingDims,
            LowerError::ConstantMissingDense => LowerErrorView::ConstantMissingDense,
            LowerError::UnsupportedReduce(a) => LowerErrorView::UnsupportedReduce(
                match a {
                    Some(x) => Some(x@),
                    None => None,
                },
            ),
        }
    }
}

/// The attribute named `k`, if any.
pub open spec fn attr_get(m: Map<Seq<char>, AttrView>, k: Seq<char>) -> Option<AttrView> {
    if m.contains_key(k) {
        Some(m[k])
    } else {
        None
    }
}

/// The dimensions a sum reduction runs over: `dimensions`, else `dims`, else none.
pub open spec fn reduce_dims(m: Map<Seq<char>, AttrView>) -> Seq<usize> {
    match (attr_get(m, "dimensions"@), attr_get(m, "dims"@)) {
        (Some(AttrView::IntVec(v)), _) => v,
        (_, Some(AttrView::IntVec(v))) => v,
        _ => Seq::empty(),
    }
}

/// The number of operands that lowering reads, by kind.
pub open spec fn operands_needed(kind: LowerKind) -> nat {
    match kind {
        LowerKind::Unary(_) => 1,
        LowerKind::Binary(_) => 2,
        LowerKind::Reshape => 1,
        LowerKind::BroadcastInDim => 1,
        LowerKind::Concatenate => 2,
        LowerKind::Constant => 0,
        LowerKind::Reduce => 1,
        LowerKind::Return => 0,
    }
}

/// The graph step that an operation stands for; `None` where lowering panics
/// (too few operands, or a `reshape` whose result type has no readable shape).
pub open spec fn lower_spec(op: OperationView) -> Option<Result<LowerStepView, LowerErrorView>> {
    match lookup_spec(op.name) {
        None => Some(Err(LowerErrorView::Unsupported(op.name))),
        Some(kind) => if op.operands.len() < operands_needed(kind) {
            None
        } else {
            let m = op.attributes;
            let out = op.result_name;
            match kind {
                LowerKind::Unary(u) => Some(
                    Ok(LowerStepView::Unary { op: u, input: op.operands[0], output: out }),
                ),
                LowerKind::Binary(b) => Some(
                    Ok(
                        LowerStepView::Binary {
                            op: b,
                            lhs: op.operands[0],
                            rhs: op.operands[1],
                            output: out,
                        },
                    ),
                ),
                LowerKind::Reshape => match output_shape_spec(op.result_type_src) {
                    None => None,
                    Some(d) => Some(
                        Ok(LowerStepView::Reshape { input: op.operands[0], shape: d, output: out }),
                    ),
                },
                LowerKind::BroadcastInDim => match attr_get(m, "dims"@) {
                    Some(AttrView::IntVec(v)) => Some(
                        Ok(LowerStepView::Expand { input: op.operands[0], dims: v, output: out }),
                    ),
                    _ => Some(Err(LowerErrorView::BroadcastMissingDims)),
                },
                LowerKind::Concatenate => Some(
                    Ok(
                        LowerStepView::Concat {
                            lhs: op.operands[0],
                            rhs: op.operands[1],
                            dim: match attr_get(m, "dim"@) {
                                Some(AttrView::Int(i)) => i as usize,
                                _ => 0,
                            },
                            output: out,
                        },
                    ),
                ),
                LowerKind::Constant => match attr_get(m, "dense"@) {
                    Some(AttrView::Float(f)) => Some(
                        Ok(
                            LowerStepView::Constant {
                                value: ConstValueView::Float(f),
                                output: out,
                            },
                        ),
                    ),
                    Some(AttrView::Int(i)) => Some(
                        Ok(LowerStepView::Constant { value: ConstValueView::Int(i), output: out }),
                    ),
                    _ => Some(Err(LowerErrorView::ConstantMissingDense)),
                },
                LowerKind::Reduce => match attr_get(m, "apply"@) {
                    Some(AttrView::Id(s)) => if s == "stablehlo.add"@ {
                        Some(
                            Ok(
                                LowerStepView::SumReduce {
                                    input: op.operands[0],
                                    dims: reduce_dims(m),
                                    output: out,
                                },
                            ),
                        )
                    } else {
                        Some(Err(LowerErrorView::UnsupportedReduce(Some(AttrView::Id(s)))))
                    },
                    other => Some(Err(LowerErrorView::UnsupportedReduce(other))),
                },
                LowerKind::Return => if op.operands.len() > 0 {
                    Some(Ok(LowerStepView::Retrieve { name: op.operands[0] }))
                } else {
                    Some(Ok(LowerStepView::Nothing))
                },
            }
        },
    }
}

/// A copy of a list of numbers.
fn copy_usizes(v: &Vec<usize>) -> (r: Vec<usize>)
    ensures
        r@ == v@,
{
    let mut r: Vec<usize> = Vec::new();
    let mut k: usize = 0;
    while k < v.len()
        invariant
            k <= v.len(),
            r@ == v@.subrange(0, k as int),
        decreases v.len() - k,
    {
        r.push(v[k]);
        k = k + 1;
        assert(r@ =~= v@.subrange(0, k as int));
    }
    assert(v@.subrange(0, v@.len() as int) =~= v@);
    r
}

/// A copy of a list of strings.
fn copy_strings(v: &Vec<String>) -> (r: Vec<String>)
    ensures
        r@ == v@,
{
    let mut r: Vec<String> = Vec::new();
    let mut k: usize = 0;
    while k < v.len()
        invariant
            k <= v.len(),
            r@ == v@.subrange(0, k as int),
        decreases v.len() - k,
    {
        r.push(v[k].clone());
        k = k + 1;
        assert(r@ =~= v@.subrange(0, k as int));
    }
    assert(v@.subrange(0, v@.len() as int) =~= v@);
    r
}

/// A copy of a list of pairs.
fn copy_pairs(v: &Vec<(usize, usize)>) -> (r: Vec<(usize, usize)>)
    ensures
        r@ == v@,
{
    let mut r: Vec<(usize, usize)> = Vec::new();
    let mut k: usize = 0;
    while k < v.len()
        invariant
            k <= v.len(),
            r@ == v@.subrange(0, k as int),
        decreases v.len() - k,
    {
        r.push(v[k]);
        k = k + 1;
        assert(r@ =~= v@.subrange(0, k as int));
    }
    assert(v@.subrange(0, v@.len() as int) =~= v@);
    r
}

/// A copy of an attribute.
pub fn copy_attr(a: &Attr) -> (r: Attr)
    ensures
        r@ == a@,
{
    match a {
        Attr::Int(i) => Attr::Int(*i),
        Attr::IntVec(v) => Attr::IntVec(copy_usizes(v)),
        Attr::Id(s) => Attr::Id(s.clone()),
        Attr::Float(s) => Attr::Float(s.clone()),
        Attr::DimNumbers { input, kernel, output } => Attr::DimNumbers {
            input: copy_strings(input),
            kernel: copy_strings(kernel),
            output: copy_strings(output),
        },
        Attr::PadPairs(v) => Attr::PadPairs(copy_pairs(v)),
    }
}

/// The `i`-th operand, copied.
fn operand(op: &Operation, i: usize) -> (r: String)
    requires
        i < op.operands@.len(),
    ensures
        r@ == op@.operands[i as int],
{
    op.operands[i].clone()
}

/// The graph step that `op` stands for.
pub fn lower_op(op: &Operation) -> (r: Result<LowerStep, LowerError>)
    requires
        lower_spec(op@) is Some,
    ensures
        match lower_spec(op@) {
            Some(Ok(s)) => r matches Ok(x) && x@ == s,
            Some(Err(e)) => r matches Err(x) && x@ == e,
            None => false,
        },
{
    try_lower_op(op).unwrap()
}

/// Which side of a binary operation is broadcast to the other's shape: a
/// rank-0 side when the other side is not rank 0.
#[derive(Debug, Clone, Copy, PartialEq, Eq, Structural)]
pub enum Broadcast {
    Neither,
    ExpandLhs,
    ExpandRhs,
}

/// The side that is broadcast in a binary operation on tensors of ranks
/// `lhs_rank` and `rhs_rank`.
pub open spec fn broadcast_spec(lhs_rank: nat, rhs_rank: nat) -> Broadcast {
    if lhs_rank == 0 && rhs_rank != 0 {
        Broadcast::ExpandLhs
    } else if rhs_rank == 0 && lhs_rank != 0 {
        Broadcast::ExpandRhs
    } else {
        Broadcast::Neither
    }
}

/// The same decision with the two sides swapped.
pub open spec fn mirror(b: Broadcast) -> Broadcast {
    match b {
        Broadcast::Neither => Broadcast::Neither,
        Broadcast::ExpandLhs => Broadcast::ExpandRhs,
        Broadcast::ExpandRhs => Broadcast::ExpandLhs,
    }
}

/// Broadcasting treats both sides alike: swapping the operands swaps the side
/// that is broadcast; and a side is only ever broadcast to a higher rank.
pub proof fn law_broadcast_symmetric(lhs_rank: nat, rhs_rank: nat)
    ensures
        broadcast_spec(lhs_rank, rhs_rank) == mirror(broadcast_spec(rhs_rank, lhs_rank)),
        broadcast_spec(lhs_rank, rhs_rank) == Broadcast::ExpandLhs ==> lhs_rank < rhs_rank,
        broadcast_spec(lhs_rank, rhs_rank) == Broadcast::ExpandRhs ==> rhs_rank < lhs_rank,
{
}

/// An operation is refused as unsupported exactly when its name is not one
/// that lowering knows, whatever its operands and attributes, and the refusal
/// names it.
pub proof fn law_unsupported_refused(op: OperationView)
    ensures
        lookup_spec(op.name) is None <==> (lower_spec(op) matches Some(
            Err(LowerErrorView::Unsupported(_)),
        )),
        lookup_spec(op.name) is None ==> lower_spec(op) == Some(
            Err::<LowerStepView, LowerErrorView>(LowerErrorView::Unsupported(op.name)),
        ),
{
}

/// The side of a binary operation on tensors of ranks `lhs_rank` and
/// `rhs_rank` that is broadcast.
pub fn numpy_broadcast(lhs_rank: usize, rhs_rank: usize) -> (r: Broadcast)
    ensures
        r == broadcast_spec(lhs_rank as nat, rhs_rank as nat),
{
    if lhs_rank == 0 && rhs_rank != 0 {
        Broadcast::ExpandLhs
    } else if rhs_rank == 0 && lhs_rank != 0 {
        Broadcast::ExpandRhs
    } else {
        Broadcast::Neither
    }
}

/// The graph step that `op` stands for, or `None` where lowering panics (too
/// few operands, or a `reshape` whose result type has no readable shape).
pub fn try_lower_op(op: &Operation) -> (r: Option<Result<LowerStep, LowerError>>)
    ensures
        match lower_spec(op@) {
            None => r is None,
            Some(Ok(s)) => r matches Some(Ok(x)) && x@ == s,
            Some(Err(e)) => r matches Some(Err(x)) && x@ == e,
        },
{
    proof {
        reveal_strlit("stablehlo.add");
    }
    let kind = match lookup(op.name.as_str()) {
        Some(k) => k,
        None => return Some(Err(LowerError::Unsupported(op.name.clone()))),
    };
    let needed: usize = match kind {
        LowerKind::Unary(_) => 1,
        LowerKind::Binary(_) => 2,
        LowerKind::Reshape => 1,
        LowerKind::BroadcastInDim => 1,
        LowerKind::Concatenate => 2,
        LowerKind::Constant => 0,
        LowerKind::Reduce => 1,
        LowerKind::Return => 0,
    };
    if op.operands.len() < needed {
        return None;
    }
    let output = op.result_name.clone();
    let step = match kind {
        LowerKind::Unary(u) => LowerStep::Unary { op: u, input: operand(op, 0), output },
        LowerKind::Binary(b) => LowerStep::Binary {
            op: b,
            lhs: operand(op, 0),
            rhs: operand(op, 1),
            output,
        },
        LowerKind::Reshape => {
            let input = operand(op, 0);
            let shape = try_parse_output_shape_from_op(op.result_type_src.as_str())?;
            LowerStep::Reshape { input, shape, output }
        },
        LowerKind::BroadcastInDim => {
            let input = operand(op, 0);
            let dims = match op.attributes.get("dims") {
                Some(Attr::IntVec(v)) => copy_usizes(v),
                _ => return Some(Err(LowerError::BroadcastMissingDims)),
            };
            LowerStep::Expand { input, dims, output }
        },
        LowerKind::Concatenate => {
            let lhs = operand(op, 0);
            let rhs = operand(op, 1);
            let dim = match op.attributes.get("dim") {
                Some(Attr::Int(i)) => *i as usize,
                _ => 0usize,
            };
            LowerStep::Concat { lhs, rhs, dim, output }
        },
        LowerKind::Constant => {
            let value = match op.attributes.get("dense") {
                Some(Attr::Float(f)) => ConstValue::Float(f.clone()),
                Some(Attr::Int(i)) => ConstValue::Int(*i),
                _ => return Some(Err(LowerError::ConstantMissingDense)),
            };
            LowerStep::Constant { value, output }
        },
        LowerKind::Reduce => {
            let input = operand(op, 0);
            match op.attributes.get("apply") {
                Some(Attr::Id(s)) => {
                    if !str_eq(s.as_str(), "stablehlo.add") {
                        return Some(Err(LowerError::UnsupportedReduce(Some(Attr::Id(s.clone())))));
                    }
                },
                Some(other) => return Some(Err(LowerError::UnsupportedReduce(Some(copy_attr(other))))),
                None => return Some(Err(LowerError::UnsupportedReduce(None))),
            }
            let dims = match (op.attributes.get("dimensions"), op.attributes.get("dims")) {
                (Some(Attr::IntVec(v)), _) => copy_usizes(v),
                (_, Some(Attr::IntVec(v))) => copy_usizes(v),
                _ => Vec::new(),
            };
            LowerStep::SumReduce { input, dims, output }
        },
        LowerKind::Return => {
            if op.operands.len() > 0 {
                LowerStep::Retrieve { name: operand(op, 0) }
            } else {
                LowerStep::Nothing
            }
        },
    };
    Some(Ok(step))
}

/// The StableHLO name of each element-wise operation on two tensors.
pub open spec fn binary_op_name(b: BinaryOp) -> Seq<char> {
    match b {
        BinaryOp::Add => "stablehlo.add"@,
        BinaryOp::Subtract => "stablehlo.subtract"@,
        BinaryOp::Multiply => "stablehlo.multiply"@,
        BinaryOp::Divide => "stablehlo.divide"@,
        BinaryOp::Remainder => "stablehlo.remainder"@,
        BinaryOp::Maximum => "stablehlo.maximum"@,
        BinaryOp::Minimum => "stablehlo.minimum"@,
    }
}

/// The StableHLO name of each element-wise operation on one tensor.
pub open spec fn unary_op_name(u: UnaryOp) -> Seq<char> {
    match u {
        UnaryOp::Abs => "stablehlo.abs"@,
        UnaryOp::Negate => "stablehlo.negate"@,
        UnaryOp::Sqrt => "stablehlo.sqrt"@,
        UnaryOp::Log => "stablehlo.log"@,
        UnaryOp::Exp => "stablehlo.exponential"@,
    }
}

proof fn lemma_lookup_binary_name(b: BinaryOp)
    ensures
        lookup_spec(binary_op_name(b)) == Some(LowerKind::Binary(b)),
{
    match b {
        BinaryOp::Add => {
            reveal_strlit("stablehlo.add");
            reveal_strlit("stablehlo.abs");
            assert("stablehlo.add"@[11] != "stablehlo.abs"@[11]);
            assert("stablehlo.add"@ != "stablehlo.abs"@);
            reveal_strlit("stablehlo.negate");
            assert("stablehlo.add"@.len() != "stablehlo.negate"@.len());
            assert("stablehlo.add"@ != "stablehlo.negate"@);
            reveal_strlit("stablehlo.sqrt");
            assert("stablehlo.add"@.len() != "stablehlo.sqrt"@.len());
            assert("stablehlo.add"@ != "stablehlo.sqrt"@);
            reveal_strlit("stablehlo.log");
            assert("stablehlo.add"@[10] != "stablehlo.log"@[10]);
            assert("stablehlo.add"@ != "stablehlo.log"@);
            reveal_strlit("stablehlo.exponential");
            assert("stablehlo.add"@.len() != "stablehlo.exponential"@.len());
            assert("stablehlo.add"@ != "stablehlo.exponential"@);
        },
        BinaryOp::Subtract => {
            reveal_strlit("stablehlo.subtract");
            reveal_strlit("stablehlo.abs");
            assert("stablehlo.subtract"@.len() != "stablehlo.abs"@.len());
            assert("stablehlo.subtract"@ != "stablehlo.abs"@);
            reveal_strlit("stablehlo.negate");
            assert("stablehlo.subtract"@.len() != "stablehlo.negate"@.len());
            assert("stablehlo.subtract"@ != "stablehlo.negate"@);
            reveal_strlit("stablehlo.sqrt");
            assert("stablehlo.subtract"@.len() != "stablehlo.sqrt"@.len());
            assert("stablehlo.subtract"@ != "stablehlo.sqrt"@);
            reveal_strlit("stablehlo.log");
            assert("stablehlo.subtract"@.len() != "stablehlo.log"@.len());
            assert("stablehlo.subtract"@ != "stablehlo.log"@);
            reveal_strlit("stablehlo.exponential");
            assert("stablehlo.subtract"@.len() != "stablehlo.exponential"@.len());
            assert("stablehlo.subtract"@ != "stablehlo.exponential"@);
            reveal_strlit("stablehlo.add");
            assert("stablehlo.subtract"@.len() != "stablehlo.add"@.len());
            assert("stablehlo.subtract"@ != "stablehlo.add"@);
        },
        BinaryOp::Multiply => {
            reveal_strlit("stablehlo.multiply");
            reveal_strlit("stablehlo.abs");
            assert("stablehlo.multiply"@.len() != "stablehlo.abs"@.len());
            assert("stablehlo.multiply"@ != "stablehlo.abs"@);
            reveal_strlit("stablehlo.negate");
            assert("stablehlo.multiply"@.len() != "stablehlo.negate"@.len());
            assert("stablehlo.multiply"@ != "stablehlo.negate"@);
            reveal_strlit("stablehlo.sqrt");
            assert("stablehlo.multiply"@.len() != "stablehlo.sqrt"@.len());
            assert("stablehlo.multiply"@ != "stablehlo.sqrt"@);
            reveal_strlit("stablehlo.log");
            assert("stablehlo.multiply"@.len() != "stablehlo.log"@.len());
            assert("stablehlo.multiply"@ != "stablehlo.log"@);
            reveal_strlit("stablehlo.exponential");
            assert("stablehlo.multiply"@.len() != "stablehlo.exponential"@.len());
            assert("stablehlo.multiply"@ != "stablehlo.exponential"@);
            reveal_strlit("stablehlo.add");
            assert("stablehlo.multiply"@.len() != "stablehlo.add"@.len());
            assert("stablehlo.multiply"@ != "stablehlo.add"@);
            reveal_strlit("stablehlo.subtract");
            assert("stablehlo.multiply"@[10] != "stablehlo.subtract"@[10]);
            assert("stablehlo.multiply"@ != "stablehlo.subtract"@);
        },
        BinaryOp::Divide => {
            reveal_strlit("stablehlo.divide");
            reveal_strlit("stablehlo.abs");
            assert("stablehlo.divide"@.len() != "stablehlo.abs"@.len());
            assert("stablehlo.divide"@ != "stablehlo.abs"@);
            reveal_strlit("stablehlo.negate");
            assert("stablehlo.divide"@[10] != "stablehlo.negate"@[10]);
            assert("stablehlo.divide"@ != "stablehlo.negate"@);
            reveal_strlit("stablehlo.sqrt");
            assert("stablehlo.divide"@.len() != "stablehlo.sqrt"@.len());
            assert("stablehlo.divide"@ != "stablehlo.sqrt"@);
            reveal_strlit("stablehlo.log");
            assert("stablehlo.divide"@.len() != "stablehlo.log"@.len());
            assert("stablehlo.divide"@ != "stablehlo.log"@);
            reveal_strlit("stablehlo.exponential");
            assert("stablehlo.divide"@.len() != "stablehlo.exponential"@.len());
            assert("stablehlo.divide"@ != "stablehlo.exponential"@);
            reveal_strlit("stablehlo.add");
            assert("stablehlo.divide"@.len() != "stablehlo.add"@.len());
            assert("stablehlo.divide"@ != "stablehlo.add"@);
            reveal_strlit("stablehlo.subtract");
            assert("stablehlo.divide"@.len() != "stablehlo.subtract"@.len());
            assert("stablehlo.divide"@ != "stablehlo.subtract"@);
            reveal_strlit("stablehlo.multiply");
            assert("stablehlo.divide"@.len() != "stablehlo.multiply"@.len());
            assert("stablehlo.divide"@ != "stablehlo.multiply"@);
        },
        BinaryOp::Remainder => {
            reveal_strlit("stablehlo.remainder");
            reveal_strlit("stablehlo.abs");
            assert("stablehlo.remainder"@.len() != "stablehlo.abs"@.len());
            assert("stablehlo.remainder"@ != "stablehlo.abs"@);
            reveal_strlit("stablehlo.negate");
            assert("stablehlo.remainder"@.len() != "stablehlo.negate"@.len());
            assert("stablehlo.remainder"@ != "stablehlo.negate"@);
            reveal_strlit("stablehlo.sqrt");
            assert("stablehlo.remainder"@.len() != "stablehlo.sqrt"@.len());
            assert("stablehlo.remainder"@ != "stablehlo.sqrt"@);
            reveal_strlit("stablehlo.log");
            assert("stablehlo.remainder"@.len() != "stablehlo.log"@.len());
            assert("stablehlo.remainder"@ != "stablehlo.log"@);
            reveal_strlit("stablehlo.exponential");
            assert("stablehlo.remainder"@.len() != "stablehlo.exponential"@.len());
            assert("stablehlo.remainder"@ != "stablehlo.exponential"@);
            reveal_strlit("stablehlo.add");
            assert("stablehlo.remainder"@.len() != "stablehlo.add"@.len());
            assert("stablehlo.remainder"@ != "stablehlo.add"@);
            reveal_strlit("stablehlo.subtract");
            assert("stablehlo.remainder"@.len() != "stablehlo.subtract"@.len());
            assert("stablehlo.remainder"@ != "stablehlo.subtract"@);
            reveal_strlit("stablehlo.multiply");
            assert("stablehlo.remainder"@.len() != "stablehlo.multiply"@.len());
            assert("stablehlo.remainder"@ != "stablehlo.multiply"@);
            reveal_strlit("stablehlo.divide");
            assert("stablehlo.remainder"@.len() != "stablehlo.divide"@.len());
            assert("stablehlo.remainder"@ != "stablehlo.divide"@);
        },
        BinaryOp::Maximum => {
            reveal_strlit("stablehlo.maximum");
            reveal_strlit("stablehlo.abs");
            assert("stablehlo.maximum"@.len() != "stablehlo.abs"@.len());
            assert("stablehlo.maximum"@ != "stablehlo.abs"@);
            reveal_strlit("stablehlo.negate");
            assert("stablehlo.maximum"@.len() != "stablehlo.negate"@.len());
            assert("stablehlo.maximum"@ != "stablehlo.negate"@);
            reveal_strlit("stablehlo.sqrt");
            assert("stablehlo.maximum"@.len() != "stablehlo.sqrt"@.len());
            assert("stablehlo.maximum"@ != "stablehlo.sqrt"@);
            reveal_strlit("stablehlo.log");
            assert("stablehlo.maximum"@.len() != "stablehlo.log"@.len());
            assert("stablehlo.maximum"@ != "stablehlo.log"@);
            reveal_strlit("stablehlo.exponential");
            assert("stablehlo.maximum"@.len() != "stablehlo.exponential"@.len());
            assert("stablehlo.maximum"@ != "stablehlo.exponential"@);
            reveal_strlit("stablehlo.add");
            assert("stablehlo.maximum"@.len() != "stablehlo.add"@.len());
            assert("stablehlo.maximum"@ != "stablehlo.add"@);
            reveal_strlit("stablehlo.subtract");
            assert("stablehlo.maximum"@.len() != "stablehlo.subtract"@.len());
            assert("stablehlo.maximum"@ != "stablehlo.subtract"@);
            reveal_strlit("stablehlo.multiply");
            assert("stablehlo.maximum"@.len() != "stablehlo.multiply"@.len());
            assert("stablehlo.maximum"@ != "stablehlo.multiply"@);
            reveal_strlit("stablehlo.divide");
            assert("stablehlo.maximum"@.len() != "stablehlo.divide"@.len());
            assert("stablehlo.maximum"@ != "stablehlo.divide"@);
            reveal_strlit("stablehlo.remainder");
            assert("stablehlo.maximum"@.len() != "stablehlo.remainder"@.len());
            assert("stablehlo.maximum"@ != "stablehlo.remainder"@);
        },
        BinaryOp::Minimum => {
            reveal_strlit("stablehlo.minimum");
            reveal_strlit("stablehlo.abs");
            assert("stablehlo.minimum"@.len() != "stablehlo.abs"@.len());
            assert("stablehlo.minimum"@ != "stablehlo.abs"@);
            reveal_strlit("stablehlo.negate");
            assert("stablehlo.minimum"@.len() != "stablehlo.negate"@.len());
            assert("stablehlo.minimum"@ != "stablehlo.negate"@);
            reveal_strlit("stablehlo.sqrt");
            assert("stablehlo.minimum"@.len() != "stablehlo.sqrt"@.len());
            assert("stablehlo.minimum"@ != "stablehlo.sqrt"@);
            reveal_strlit("stablehlo.log");
            assert("stablehlo.minimum"@.len() != "stablehlo.log"@.len());
            assert("stablehlo.minimum"@ != "stablehlo.log"@);
            reveal_strlit("stablehlo.exponential");
            assert("stablehlo.minimum"@.len() != "stablehlo.exponential"@.len());
            assert("stablehlo.minimum"@ != "stablehlo.exponential"@);
            reveal_strlit("stablehlo.add");
            assert("stablehlo.minimum"@.len() != "stablehlo.add"@.len());
            assert("stablehlo.minimum"@ != "stablehlo.add"@);
            reveal_strlit("stablehlo.subtract");
            assert("stablehlo.minimum"@.len() != "stablehlo.subtract"@.len());
            assert("stablehlo.minimum"@ != "stablehlo.subtract"@);
            reveal_strlit("stablehlo.multiply");
            assert("stablehlo.minimum"@.len() != "stablehlo.multiply"@.len());
            assert("stablehlo.minimum"@ != "stablehlo.multiply"@);
            reveal_strlit("stablehlo.divide");
            assert("stablehlo.minimum"@.len() != "stablehlo.divide"@.len());
            assert("stablehlo.minimum"@ != "stablehlo.divide"@);
            reveal_strlit("stablehlo.remainder");
            assert("stablehlo.minimum"@.len() != "stablehlo.remainder"@.len());
            assert("stablehlo.minimum"@ != "stablehlo.remainder"@);
            reveal_strlit("stablehlo.maximum");
            assert("stablehlo.minimum"@[11] != "stablehlo.maximum"@[11]);
            assert("stablehlo.minimum"@ != "stablehlo.maximum"@);
        },
    }
}

proof fn lemma_lookup_unary_name(u: UnaryOp)
    ensures
        lookup_spec(unary_op_name(u)) == Some(LowerKind::Unary(u)),
{
    match u {
        UnaryOp::Abs => {
            reveal_strlit("stablehlo.abs");
        },
        UnaryOp::Negate => {
            reveal_strlit("stablehlo.negate");
            reveal_strlit("stablehlo.abs");
            assert("stablehlo.negate"@.len() != "stablehlo.abs"@.len());
            assert("stablehlo.negate"@ != "stablehlo.abs"@);
        },
        UnaryOp::Sqrt => {
            reveal_strlit("stablehlo.sqrt");
            reveal_strlit("stablehlo.abs");
            assert("stablehlo.sqrt"@.len() != "stablehlo.abs"@.len());
            assert("stablehlo.sqrt"@ != "stablehlo.abs"@);
            reveal_strlit("stablehlo.negate");
            assert("stablehlo.sqrt"@.len() != "stablehlo.negate"@.len());
            assert("stablehlo.sqrt"@ != "stablehlo.negate"@);
        },
        UnaryOp::Log => {
            reveal_strlit("stablehlo.log");
            reveal_strlit("stablehlo.abs");
            assert("stablehlo.log"@[10] != "stablehlo.abs"@[10]);
            assert("stablehlo.log"@ != "stablehlo.abs"@);
            reveal_strlit("stablehlo.negate");
            assert("stablehlo.log"@.len() != "stablehlo.negate"@.len());
            assert("stablehlo.log"@ != "stablehlo.negate"@);
            reveal_strlit("stablehlo.sqrt");
            assert("stablehlo.log"@.len() != "stablehlo.sqrt"@.len());
            assert("stablehlo.log"@ != "stablehlo.sqrt"@);
        },
        UnaryOp::Exp => {
            reveal_strlit("stablehlo.exponential");
            reveal_strlit("stablehlo.abs");
            assert("stablehlo.exponential"@.len() != "stablehlo.abs"@.len());
            assert("stablehlo.exponential"@ != "stablehlo.abs"@);
            reveal_strlit("stablehlo.negate");
            assert("stablehlo.exponential"@.len() != "stablehlo.negate"@.len());
            assert("stablehlo.exponential"@ != "stablehlo.negate"@);
            reveal_strlit("stablehlo.sqrt");
            assert("stablehlo.exponential"@.len() != "stablehlo.sqrt"@.len());
            assert("stablehlo.exponential"@ != "stablehlo.sqrt"@);
            reveal_strlit("stablehlo.log");
            assert("stablehlo.exponential"@.len() != "stablehlo.log"@.len());
            assert("stablehlo.exponential"@ != "stablehlo.log"@);
        },
    }
}

/// Each element-wise operation is looked up by its own StableHLO name and by
/// no other: the name `stablehlo.subtract` stands for subtraction, and so on.
pub proof fn law_lookup_by_op_name(name: Seq<char>)
    ensures
        forall|b: BinaryOp| #[trigger] lookup_spec(binary_op_name(b)) == Some(LowerKind::Binary(b)),
        forall|u: UnaryOp| #[trigger] lookup_spec(unary_op_name(u)) == Some(LowerKind::Unary(u)),
        lookup_spec(name) matches Some(LowerKind::Binary(b)) ==> name == binary_op_name(b),
        lookup_spec(name) matches Some(LowerKind::Unary(u)) ==> name == unary_op_name(u),
{
    assert forall|b: BinaryOp| #[trigger] lookup_spec(binary_op_name(b)) == Some(
        LowerKind::Binary(b),
    ) by {
        lemma_lookup_binary_name(b);
    }
    assert forall|u: UnaryOp| #[trigger] lookup_spec(unary_op_name(u)) == Some(
        LowerKind::Unary(u),
    ) by {
        lemma_lookup_unary_name(u);
    }
}

/// An element-wise operation lowers to the graph operation of its name, on its
/// operands in order, defining its result: `%2 = stablehlo.subtract %0, %1`
/// computes `%0 - %1` into `%2`.
pub proof fn law_lower_by_op_name(op: OperationView)
    ensures
        forall|b: BinaryOp|
            #![trigger binary_op_name(b)]
            op.name == binary_op_name(b) && op.operands.len() >= 2 ==> lower_spec(op) == Some(
                Ok::<LowerStepView, LowerErrorView>(
                    LowerStepView::Binary {
                        op: b,
                        lhs: op.operands[0],
                        rhs: op.operands[1],
                        output: op.result_name,
                    },
                ),
            ),
        forall|u: UnaryOp|
            #![trigger unary_op_name(u)]
            op.name == unary_op_name(u) && op.operands.len() >= 1 ==> lower_spec(op) == Some(
                Ok::<LowerStepView, LowerErrorView>(
                    LowerStepView::Unary { op: u, input: op.operands[0], output: op.result_name },
                ),
            ),
{
    assert forall|b: BinaryOp|
        #![trigger binary_op_name(b)]
        op.name == binary_op_name(b) implies lookup_spec(op.name) == Some(LowerKind::Binary(b)) by {
        lemma_lookup_binary_name(b);
    }
    assert forall|u: UnaryOp|
        #![trigger unary_op_name(u)]
        op.name == unary_op_name(u) implies lookup_spec(op.name) == Some(LowerKind::Unary(u)) by {
        lemma_lookup_unary_name(u);
    }
}

/// A rank-0 operand of a binary operation is broadcast to the other operand
/// exactly when that one has rank 1 or more; operands of equal kind (both
/// rank 0, or both of positive rank) are left as they are.
pub proof fn law_broadcast_rank_zero_side(r: nat)
    ensures
        r > 0 ==> broadcast_spec(0, r) == Broadcast::ExpandLhs,
        r > 0 ==> broadcast_spec(r, 0) == Broadcast::ExpandRhs,
        broadcast_spec(0, 0) == Broadcast::Neither,
        forall|l: nat| l > 0 && r > 0 ==> #[trigger] broadcast_spec(l, r) == Broadcast::Neither,
{
}

} // verus!
