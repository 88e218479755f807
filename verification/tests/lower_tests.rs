use luminal_hlo::ast::{Attr, AttrMap, Operation};
use luminal_hlo::lexer::Lexer;
use luminal_hlo::lower::{
    copy_attr, lookup, lower_op, numpy_broadcast, try_lower_op, BinaryOp, Broadcast, ConstValue,
    LowerError, LowerKind, LowerStep, UnaryOp,
};
use luminal_hlo::parser::Parser;

fn op(name: &str, operands: &[&str], attributes: AttrMap, result_type_src: &str) -> Operation {
    Operation {
        result_name: "%out".to_string(),
        name: name.to_string(),
        operands: operands.iter().map(|s| s.to_string()).collect(),
        attributes,
        result_type_src: result_type_src.to_string(),
    }
}

fn parse_line(line: &str) -> Operation {
    let mut lx = Lexer::new(line);
    let mut p = Parser::new(line, lx.tokenize());
    p.parse_operation().unwrap()
}

#[test]
fn lookup_table() {
    assert_eq!(lookup("stablehlo.abs"), Some(LowerKind::Unary(UnaryOp::Abs)));
    assert_eq!(lookup("stablehlo.exponential"), Some(LowerKind::Unary(UnaryOp::Exp)));
    assert_eq!(lookup("stablehlo.remainder"), Some(LowerKind::Binary(BinaryOp::Remainder)));
    assert_eq!(lookup("stablehlo.minimum"), Some(LowerKind::Binary(BinaryOp::Minimum)));
    assert_eq!(lookup("stablehlo.reduce"), Some(LowerKind::Reduce));
    assert_eq!(lookup("return"), Some(LowerKind::Return));
    assert_eq!(lookup("stablehlo.exp"), None);
    assert_eq!(lookup("stablehlo.convolution"), None);
}

#[test]
fn lower_unary_and_binary() {
    let step = lower_op(&parse_line("%1 = stablehlo.negate %0 : tensor<2xf32>")).unwrap();
    assert_eq!(
        step,
        LowerStep::Unary { op: UnaryOp::Negate, input: "%0".to_string(), output: "%1".to_string() }
    );
    let step = lower_op(&parse_line("%2 = stablehlo.divide %0, %1 : tensor<2xf32>")).unwrap();
    assert_eq!(
        step,
        LowerStep::Binary {
            op: BinaryOp::Divide,
            lhs: "%0".to_string(),
            rhs: "%1".to_string(),
            output: "%2".to_string()
        }
    );
}

#[test]
fn lower_reshape_reads_result_shape() {
    let step = lower_op(&parse_line(
        "%1 = stablehlo.reshape %0 : (tensor<6xf32>) -> tensor<2x3xf32>",
    ))
    .unwrap();
    assert_eq!(
        step,
        LowerStep::Reshape { input: "%0".to_string(), shape: vec![2, 3], output: "%1".to_string() }
    );
    assert!(try_lower_op(&op("stablehlo.reshape", &["%0"], AttrMap::new(), "")).is_none());
}

#[test]
fn lower_broadcast_needs_dims() {
    let step = lower_op(&parse_line(
        "%1 = stablehlo.broadcast_in_dim %0, dims = [0] : (tensor<2xf32>) -> tensor<2x3xf32>",
    ))
    .unwrap();
    assert_eq!(
        step,
        LowerStep::Expand { input: "%0".to_string(), dims: vec![0], output: "%1".to_string() }
    );
    assert_eq!(
        lower_op(&op("stablehlo.broadcast_in_dim", &["%0"], AttrMap::new(), "")).unwrap_err(),
        LowerError::BroadcastMissingDims
    );
}

#[test]
fn lower_concatenate_dim_defaults_to_zero() {
    let step = lower_op(&op("stablehlo.concatenate", &["%a", "%b"], AttrMap::new(), "")).unwrap();
    assert_eq!(
        step,
        LowerStep::Concat { lhs: "%a".to_string(), rhs: "%b".to_string(), dim: 0, output: "%out".to_string() }
    );
    let mut m = AttrMap::new();
    m.insert("dim".to_string(), Attr::Int(2));
    let step = lower_op(&op("stablehlo.concatenate", &["%a", "%b"], m, "")).unwrap();
    assert_eq!(
        step,
        LowerStep::Concat { lhs: "%a".to_string(), rhs: "%b".to_string(), dim: 2, output: "%out".to_string() }
    );
}

#[test]
fn lower_constant_literals() {
    let step = lower_op(&parse_line("%c = stablehlo.constant dense<2.5> : tensor<f32>")).unwrap();
    assert_eq!(
        step,
        LowerStep::Constant { value: ConstValue::Float("2.5".to_string()), output: "%c".to_string() }
    );
    let mut m = AttrMap::new();
    m.insert("dense".to_string(), Attr::Int(-3));
    assert_eq!(
        lower_op(&op("stablehlo.constant", &[], m, "")).unwrap(),
        LowerStep::Constant { value: ConstValue::Int(-3), output: "%out".to_string() }
    );
    assert_eq!(
        lower_op(&op("stablehlo.constant", &[], AttrMap::new(), "")).unwrap_err(),
        LowerError::ConstantMissingDense
    );
}

#[test]
fn lower_reduce_sum() {
    let step = lower_op(&parse_line(
        "%3 = stablehlo.reduce(%2 init: %1) applies stablehlo.add across dimensions = [1, 0] : (tensor<2x3xf32>, tensor<f32>) -> tensor<2xf32>",
    ))
    .unwrap();
    assert_eq!(
        step,
        LowerStep::SumReduce { input: "%2".to_string(), dims: vec![1, 0], output: "%3".to_string() }
    );
    let mut m = AttrMap::new();
    m.insert("apply".to_string(), Attr::Id("stablehlo.add".to_string()));
    m.insert("dims".to_string(), Attr::IntVec(vec![4]));
    assert_eq!(
        lower_op(&op("stablehlo.reduce", &["%x"], m, "")).unwrap(),
        LowerStep::SumReduce { input: "%x".to_string(), dims: vec![4], output: "%out".to_string() }
    );
    let mut m = AttrMap::new();
    m.insert("apply".to_string(), Attr::Id("stablehlo.add".to_string()));
    assert_eq!(
        lower_op(&op("stablehlo.reduce", &["%x"], m, "")).unwrap(),
        LowerStep::SumReduce { input: "%x".to_string(), dims: vec![], output: "%out".to_string() }
    );
}

#[test]
fn lower_reduce_other_than_add_fails() {
    let mut m = AttrMap::new();
    m.insert("apply".to_string(), Attr::Id("stablehlo.maximum".to_string()));
    assert_eq!(
        lower_op(&op("stablehlo.reduce", &["%x"], m, "")).unwrap_err(),
        LowerError::UnsupportedReduce(Some(Attr::Id("stablehlo.maximum".to_string())))
    );
    assert_eq!(
        lower_op(&op("stablehlo.reduce", &["%x"], AttrMap::new(), "")).unwrap_err(),
        LowerError::UnsupportedReduce(None)
    );
}

#[test]
fn lower_return_and_unsupported() {
    assert_eq!(
        lower_op(&op("return", &["%3"], AttrMap::new(), "")).unwrap(),
        LowerStep::Retrieve { name: "%3".to_string() }
    );
    assert_eq!(lower_op(&op("return", &[], AttrMap::new(), "")).unwrap(), LowerStep::Nothing);
    assert_eq!(
        lower_op(&op("stablehlo.convolution", &[], AttrMap::new(), "")).unwrap_err(),
        LowerError::Unsupported("stablehlo.convolution".to_string())
    );
}

#[test]
fn lower_with_too_few_operands_is_refused() {
    assert!(try_lower_op(&op("stablehlo.add", &["%a"], AttrMap::new(), "")).is_none());
    assert!(try_lower_op(&op("stablehlo.sqrt", &[], AttrMap::new(), "")).is_none());
}

#[test]
fn broadcast_decision() {
    assert_eq!(numpy_broadcast(0, 2), Broadcast::ExpandLhs);
    assert_eq!(numpy_broadcast(3, 0), Broadcast::ExpandRhs);
    assert_eq!(numpy_broadcast(0, 0), Broadcast::Neither);
    assert_eq!(numpy_broadcast(2, 2), Broadcast::Neither);
    assert_eq!(numpy_broadcast(1, 4), Broadcast::Neither);
    for (a, b) in [(0usize, 3usize), (2, 0), (0, 0), (5, 1)] {
        let mirrored = match numpy_broadcast(b, a) {
            Broadcast::ExpandLhs => Broadcast::ExpandRhs,
            Broadcast::ExpandRhs => Broadcast::ExpandLhs,
            Broadcast::Neither => Broadcast::Neither,
        };
        assert_eq!(numpy_broadcast(a, b), mirrored);
    }
}

#[test]
fn copied_attribute_is_equal() {
    let a = Attr::DimNumbers {
        input: vec!["b".to_string()],
        kernel: vec![],
        output: vec!["f".to_string(), "0".to_string()],
    };
    assert_eq!(copy_attr(&a), a);
    let p = Attr::PadPairs(vec![(1, 2), (3, 4)]);
    assert_eq!(copy_attr(&p), p);
}

#[test]
fn attr_map_read_after_write() {
    let mut m = AttrMap::new();
    m.insert("a".to_string(), Attr::Int(1));
    m.insert("b".to_string(), Attr::Int(2));
    m.insert("a".to_string(), Attr::Int(3));
    assert_eq!(m.len(), 2);
    assert_eq!(m.get("a"), Some(&Attr::Int(3)));
    assert_eq!(m.get("b"), Some(&Attr::Int(2)));
    assert_eq!(m.get("c"), None);
}
