use luminal_hlo::ast::{Attr, Operation};
use luminal_hlo::lexer::{Lexer, Tok};
use luminal_hlo::parser::{ParseError, Parser};

fn parse_line(line: &str) -> Result<Operation, ParseError> {
    let mut lx = Lexer::new(line);
    let toks = lx.tokenize();
    let mut p = Parser::new(line, toks);
    p.parse_operation()
}

fn strings(v: &[&str]) -> Vec<String> {
    v.iter().map(|s| s.to_string()).collect()
}

#[test]
fn parse_binary_operation() {
    let op = parse_line("%0 = stablehlo.add %arg0, %arg1 : tensor<2x3xf32>").unwrap();
    assert_eq!(op.result_name, "%0");
    assert_eq!(op.name, "stablehlo.add");
    assert_eq!(op.operands, strings(&["%arg0", "%arg1"]));
    assert_eq!(op.attributes.len(), 0);
    assert_eq!(op.result_type_src, "");
}

#[test]
fn parse_broadcast_with_dims_and_result_type() {
    let op = parse_line(
        "%1 = stablehlo.broadcast_in_dim %0, dims = [0, 1] : (tensor<2x3xf32>) -> tensor<2x3x4xf32>",
    )
    .unwrap();
    assert_eq!(op.operands, strings(&["%0"]));
    assert_eq!(op.attributes.get("dims"), Some(&Attr::IntVec(vec![0, 1])));
    assert_eq!(op.result_type_src, "tensor<2x3x4xf32>");
}

#[test]
fn parse_constant_keeps_literal() {
    let op = parse_line("%cst = stablehlo.constant dense<1.000000e+00> : tensor<f32>").unwrap();
    assert!(op.operands.is_empty());
    assert_eq!(
        op.attributes.get("dense"),
        Some(&Attr::Float("1.000000e+00".to_string()))
    );
}

#[test]
fn parse_constant_with_integer_literal_has_no_dense() {
    let op = parse_line("%c = stablehlo.constant dense<3> : tensor<i64>").unwrap();
    assert_eq!(op.attributes.get("dense"), None);
}

#[test]
fn parse_reduce_applies_across_dimensions() {
    let op = parse_line(
        "%3 = stablehlo.reduce(%2 init: %1) applies stablehlo.add across dimensions = [1] : (tensor<2x3xf32>, tensor<f32>) -> tensor<2xf32>",
    )
    .unwrap();
    assert_eq!(op.operands, strings(&["%2"]));
    assert_eq!(
        op.attributes.get("apply"),
        Some(&Attr::Id("stablehlo.add".to_string()))
    );
    assert_eq!(op.attributes.get("dimensions"), Some(&Attr::IntVec(vec![1])));
    assert_eq!(op.result_type_src, "tensor<2xf32>");
}

#[test]
fn parse_concatenate_dim() {
    let op = parse_line("%4 = stablehlo.concatenate %a, %b, dim = 1 : (tensor<2xf32>, tensor<2xf32>) -> tensor<4xf32>")
        .unwrap();
    assert_eq!(op.operands, strings(&["%a", "%b"]));
    assert_eq!(op.attributes.get("dim"), Some(&Attr::Int(1)));
}

#[test]
fn parse_operand_list_without_colon_ends_at_line_end() {
    let r = parse_line("%0 = stablehlo.abs %x");
    assert_eq!(r.unwrap_err(), ParseError::UnexpectedOperandToken(None));
}

#[test]
fn parse_errors_at_the_start() {
    assert_eq!(
        parse_line("x = stablehlo.abs %a :").unwrap_err(),
        ParseError::ExpectedPercentIdent
    );
    assert_eq!(
        parse_line("%0 : stablehlo.abs %a :").unwrap_err(),
        ParseError::ExpectedToken { want: Tok::Eq, got: Some(Tok::Colon) }
    );
    assert_eq!(
        parse_line("%0 = %a").unwrap_err(),
        ParseError::ExpectedIdent
    );
}

#[test]
fn parse_unexpected_operand_token() {
    assert_eq!(
        parse_line("%0 = stablehlo.abs %a [").unwrap_err(),
        ParseError::UnexpectedOperandToken(Some(Tok::LBracket))
    );
    assert_eq!(
        parse_line("%0 = stablehlo.abs %a foo").unwrap_err(),
        ParseError::UnexpectedOperandToken(Some(Tok::Ident("foo".to_string())))
    );
}

#[test]
fn parse_attribute_errors() {
    assert_eq!(
        parse_line("%0 = stablehlo.x %a dims [1]").unwrap_err(),
        ParseError::ExpectedToken { want: Tok::Eq, got: Some(Tok::LBracket) }
    );
    assert_eq!(
        parse_line("%0 = stablehlo.x %a dims = [1 : x]").unwrap_err(),
        ParseError::BadIntVecToken(Some(Tok::Colon))
    );
    assert_eq!(
        parse_line("%0 = stablehlo.x %a dims = [1, 2").unwrap_err(),
        ParseError::BadIntVecToken(None)
    );
    assert_eq!(
        parse_line("%0 = stablehlo.x %a dim = x").unwrap_err(),
        ParseError::ExpectedInteger(Some(Tok::Ident("x".to_string())))
    );
    assert_eq!(
        parse_line("%0 = stablehlo.x %a dense 1").unwrap_err(),
        ParseError::ExpectedToken { want: Tok::Less, got: Some(Tok::Integer(1)) }
    );
}

#[test]
fn parse_return_takes_first_percent_name() {
    let line = "return %3, %4 : tensor<2xf32>";
    let mut lx = Lexer::new(line);
    let mut p = Parser::new(line, lx.tokenize());
    let op = p.parse_return().unwrap();
    assert_eq!(op.result_name, "%_ret");
    assert_eq!(op.name, "return");
    assert_eq!(op.operands, strings(&["%3"]));
    assert_eq!(op.attributes.len(), 0);
    assert_eq!(op.result_type_src, "");
    assert_eq!(p.peek(), Some(&Tok::Comma));
}

#[test]
fn parse_return_without_name_fails() {
    let line = "return";
    let mut lx = Lexer::new(line);
    let mut p = Parser::new(line, lx.tokenize());
    assert_eq!(p.parse_return().unwrap_err(), ParseError::ReturnMissingIdent);
    assert_eq!(p.peek(), None);
}

#[test]
fn parser_peek_and_bump() {
    let mut p = Parser::new("", vec![Tok::Comma, Tok::Integer(4)]);
    assert_eq!(p.peek(), Some(&Tok::Comma));
    assert_eq!(p.bump(), Some(Tok::Comma));
    assert_eq!(p.bump(), Some(Tok::Integer(4)));
    assert_eq!(p.bump(), None);
    assert_eq!(p.peek(), None);
}

#[test]
fn operands_are_percent_names() {
    let op = parse_line("%r = stablehlo.maximum(%a, %b) init %c : tensor<f32>").unwrap();
    assert_eq!(op.operands, strings(&["%a", "%b", "%c"]));
    assert!(op.operands.iter().all(|o| o.starts_with('%')));
    assert!(op.result_name.starts_with('%'));
}

#[test]
fn integer_list_reads_integers_up_to_the_bracket() {
    let op = parse_line("%1 = stablehlo.broadcast_in_dim %0, dims = [2, , 5] : tensor<f32>").unwrap();
    assert_eq!(op.attributes.get("dims"), Some(&Attr::IntVec(vec![2, 5])));
    let op = parse_line("%1 = stablehlo.broadcast_in_dim %0, dims = [1 2] : tensor<f32>").unwrap();
    assert_eq!(op.attributes.get("dims"), Some(&Attr::IntVec(vec![1, 2])));
    let op = parse_line("%1 = stablehlo.broadcast_in_dim %0, dims = [] : tensor<f32>").unwrap();
    assert_eq!(op.attributes.get("dims"), Some(&Attr::IntVec(vec![])));
}

#[test]
fn operation_read_off_its_tokens() {
    let op = parse_line("%r = stablehlo.add (%a), init %b, %c : (tensor<2xf32>) -> tensor<2xf32>").unwrap();
    assert_eq!(op.result_name, "%r");
    assert_eq!(op.name, "stablehlo.add");
    assert_eq!(op.operands, strings(&["%a", "%b", "%c"]));
    assert_eq!(op.result_type_src, "tensor<2xf32>");
    let op = parse_line("%r = stablehlo.add %a dims = [0] -> tensor<3xf32>  ").unwrap();
    assert_eq!(op.operands, strings(&["%a"]));
    assert_eq!(op.result_type_src, "tensor<3xf32>");
}
