use luminal_hlo::shape::{
    parse_func_args_line, parse_output_shape_from_op, try_parse_func_args_line,
    try_parse_output_shape_from_op, FuncArg,
};

fn arg(name: &str, shape: &[usize]) -> FuncArg {
    FuncArg { name: name.to_string(), shape: shape.to_vec() }
}

#[test]
fn output_shape_of_ranked_tensor() {
    assert_eq!(parse_output_shape_from_op("tensor<2x3x4xf32>"), vec![2, 3, 4]);
    assert_eq!(parse_output_shape_from_op("(tensor<5xf32>) -> tensor<7x1xi64>"), vec![5]);
}

#[test]
fn output_shape_of_scalar_is_one() {
    assert_eq!(parse_output_shape_from_op("tensor<f32>"), vec![1]);
    assert_eq!(parse_output_shape_from_op("tensor<i64> {x}"), vec![1]);
}

#[test]
fn output_shape_skips_unreadable_dims() {
    assert_eq!(parse_output_shape_from_op("tensor<?x3xf32>"), vec![3]);
    assert_eq!(parse_output_shape_from_op("tensor<+4 x 2 xbf16>"), vec![4, 2]);
    assert_eq!(parse_output_shape_from_op("tensor<bf16>"), vec![1]);
    assert_eq!(parse_output_shape_from_op("tensor<99999999999999999999999x2xf32>"), vec![2]);
}

#[test]
fn output_shape_needs_a_closed_tensor_type() {
    assert_eq!(try_parse_output_shape_from_op("memref<2xf32>"), None);
    assert_eq!(try_parse_output_shape_from_op("tensor<2xf32"), None);
    assert_eq!(try_parse_output_shape_from_op("x tensor<2xf32>"), Some(vec![2]));
}

#[test]
fn func_args_of_header_line() {
    let line = "func.func @main(%arg0: tensor<2x3xf32>, %arg1: tensor<f32>) -> tensor<2x3xf32> {";
    assert_eq!(
        parse_func_args_line(line),
        vec![arg("%arg0", &[2, 3]), arg("%arg1", &[1])]
    );
}

#[test]
fn func_args_skip_pieces_without_one_colon() {
    let line = "func.func @f(%a, %b: tensor<4xf32>, %c: x: y) {";
    assert_eq!(parse_func_args_line(line), vec![arg("%b", &[4])]);
    assert_eq!(parse_func_args_line("func.func @f() {"), vec![]);
    assert_eq!(parse_func_args_line("no parens"), vec![]);
}

#[test]
fn func_args_that_would_panic_are_refused() {
    assert_eq!(try_parse_func_args_line("func.func @f(%a: f32) {"), None);
    assert_eq!(try_parse_func_args_line(") func.func @f(%a: tensor<2xf32>"), None);
}

#[test]
fn output_shape_pieces_are_trimmed() {
    assert_eq!(parse_output_shape_from_op("tensor< 2 x 3 xf32>"), vec![2, 3]);
    assert_eq!(parse_output_shape_from_op("tensor< f32 >"), vec![1]);
}
