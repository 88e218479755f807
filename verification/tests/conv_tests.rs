use luminal_hlo::ast::Attr;
use luminal_hlo::conv::{
    extract_bracket_list, find_matching_brace, next_bracket_after, parse_bracket_intvec,
    parse_pad_pairs, parse_trailing_int, split_tags, try_parse_bracket_intvec,
    try_parse_pad_pairs,
};
use luminal_hlo::lexer::Lexer;
use luminal_hlo::parser::{ParseError, Parser};

fn chars(s: &str) -> Vec<char> {
    s.chars().collect()
}

const CONV: &str = "%4 = stablehlo.convolution(%arg0, %arg1) dim_numbers = [b, 0, 1, f]x[0, 1, i, o]->[b, 0, 1, f], window = {stride = [1, 2], pad = [[0, 1], [2, 3]], lhs_dilate = [1, 1]} {batch_group_count = 1 : i64, feature_group_count = 4 : i64} : (tensor<1x4x4x1xf32>, tensor<3x3x1x1xf32>) -> tensor<1x2x2x1xf32>";

fn s(v: &[&str]) -> Vec<String> {
    v.iter().map(|x| x.to_string()).collect()
}

#[test]
fn parse_convolution_line() {
    let mut lx = Lexer::new(CONV);
    let mut p = Parser::new(CONV, lx.tokenize());
    let op = p.parse_operation().unwrap();
    assert_eq!(op.name, "stablehlo.convolution");
    assert_eq!(op.operands, s(&["%arg0", "%arg1"]));
    assert_eq!(
        op.attributes.get("dim_numbers"),
        Some(&Attr::DimNumbers {
            input: s(&["b", "0", "1", "f"]),
            kernel: s(&["0", "1", "i", "o"]),
            output: s(&["b", "0", "1", "f"]),
        })
    );
    assert_eq!(op.attributes.get("stride"), Some(&Attr::IntVec(vec![1, 2])));
    assert_eq!(op.attributes.get("window_pad"), Some(&Attr::PadPairs(vec![(0, 1)])));
    assert_eq!(op.attributes.get("base_dilations"), None);
    assert_eq!(op.attributes.get("batch_group_count"), Some(&Attr::Int(1)));
    assert_eq!(op.attributes.get("feature_group_count"), Some(&Attr::Int(4)));
    // The result type is read after the first `->` of the line, which is that of dim_numbers.
    assert!(op.result_type_src.starts_with("[b, 0, 1, f], window"));
}

#[test]
fn convolution_missing_x_and_arrow() {
    let line = "%4 = stablehlo.convolution(%a, %b) dim_numbers = [b, f] : tensor<f32>";
    let mut lx = Lexer::new(line);
    let mut p = Parser::new(line, lx.tokenize());
    assert_eq!(p.parse_operation().unwrap_err(), ParseError::DimNumbersMissingX);
    let line = "%4 = stablehlo.convolution(%a, %b) dim_numbers = [b, f]x[o, i] : tensor<f32>";
    let mut lx = Lexer::new(line);
    let mut p = Parser::new(line, lx.tokenize());
    assert_eq!(p.parse_operation().unwrap_err(), ParseError::DimNumbersMissingArrow);
}

#[test]
fn convolution_bad_stride_list() {
    let line = "%4 = stablehlo.convolution(%a, %b) : window = {stride = [1, a]} : tensor<f32>";
    let mut lx = Lexer::new(line);
    let mut p = Parser::new(line, lx.tokenize());
    assert_eq!(p.parse_operation().unwrap_err(), ParseError::BadIntVec);
}

#[test]
fn convolution_that_would_panic_is_refused() {
    let line = "%4 = stablehlo.convolution(%a, %b) : window = {stride = [9999999999 9999999999 9999]} : tensor<f32>";
    let mut lx = Lexer::new(line);
    let mut p = Parser::new(line, lx.tokenize());
    assert!(p.try_parse_operation().is_none());
    let line = "%4 = stablehlo.convolution(%a, %b) : window = {pad = [[0, 1} : tensor<f32>";
    let mut lx = Lexer::new(line);
    let mut p = Parser::new(line, lx.tokenize());
    assert!(p.try_parse_operation().is_none());
}

#[test]
fn extract_bracket_list_examples() {
    let text = "x [ a, b ] y [c]";
    let cs = chars(text);
    assert_eq!(extract_bracket_list(text, &cs, 0).unwrap(), ("a, b".to_string(), 10));
    assert_eq!(extract_bracket_list(text, &cs, 10).unwrap(), ("c".to_string(), 16));
    assert_eq!(
        extract_bracket_list(text, &cs, 16).unwrap_err(),
        ParseError::UnclosedBracketList
    );
    let open = "[a, b";
    assert_eq!(
        extract_bracket_list(open, &chars(open), 0).unwrap_err(),
        ParseError::UnclosedBracketList
    );
}

#[test]
fn next_bracket_after_examples() {
    let cs = chars("ab[c");
    assert_eq!(next_bracket_after(&cs, 0).unwrap(), 2);
    assert_eq!(next_bracket_after(&cs, 3).unwrap_err(), ParseError::ExpectedBracket);
}

#[test]
fn matching_brace_examples() {
    let cs = chars("{a {b} c} d}");
    assert_eq!(find_matching_brace(&cs, 0), Some(8));
    assert_eq!(find_matching_brace(&cs, 3), Some(5));
    assert_eq!(find_matching_brace(&chars("{ {}"), 0), None);
}

#[test]
fn split_tags_examples() {
    assert_eq!(split_tags(" b, 0 ,,f ".to_string()), s(&["b", "0", "f"]));
    assert_eq!(split_tags(String::new()), Vec::<String>::new());
    for t in split_tags(" x , y y ,  ".to_string()) {
        assert!(!t.is_empty());
        assert_eq!(t.trim(), t);
    }
}

#[test]
fn bracket_intvec_examples() {
    assert_eq!(try_parse_bracket_intvec(&chars("[1, 2 3, 45] rest")), Some(Ok((vec![1, 23, 45], 12))));
    assert_eq!(try_parse_bracket_intvec(&chars("[]")), Some(Ok((vec![], 2))));
    assert_eq!(try_parse_bracket_intvec(&chars("[1,,2]")), Some(Ok((vec![1, 2], 6))));
    assert_eq!(try_parse_bracket_intvec(&chars("[1, x]")), Some(Err(ParseError::BadIntVec)));
    assert_eq!(try_parse_bracket_intvec(&chars("[1, 2")), Some(Err(ParseError::BadIntVec)));
    assert_eq!(try_parse_bracket_intvec(&chars("[99999999999999999999999]")), None);
}

#[test]
fn pad_pairs_examples() {
    assert_eq!(try_parse_pad_pairs(&chars("[[0, 1], [2, 3]]")), Some(vec![(0, 1)]));
    assert_eq!(try_parse_pad_pairs(&chars("[7]")), Some(vec![(7, 0)]));
    assert_eq!(try_parse_pad_pairs(&chars("x ] [1, 2]")), Some(vec![]));
    assert_eq!(try_parse_pad_pairs(&chars("no brackets")), Some(vec![]));
    assert_eq!(try_parse_pad_pairs(&chars("[1, 2, 3]")), Some(vec![(1, 23)]));
    assert_eq!(try_parse_pad_pairs(&chars("[99999999999999999999999, 4]")), Some(vec![(0, 4)]));
    assert_eq!(try_parse_pad_pairs(&chars("[1, 2")), None);
}

#[test]
fn trailing_int_examples() {
    assert_eq!(parse_trailing_int(&chars("count = 12 : i64")), Some((12, 10)));
    assert_eq!(parse_trailing_int(&chars("none")), None);
    assert_eq!(parse_trailing_int(&chars("x 99999999999999999999999")), None);
}

#[test]
fn convolution_without_its_attributes_reads_none() {
    let line = "%4 = stablehlo.convolution(%a, %b) : (tensor<1xf32>, tensor<1xf32>) -> tensor<1xf32>";
    let mut lx = Lexer::new(line);
    let mut p = Parser::new(line, lx.tokenize());
    let op = p.parse_operation().unwrap();
    assert_eq!(op.operands, s(&["%a", "%b"]));
    assert_eq!(op.attributes.len(), 0);
    assert_eq!(op.result_type_src, "tensor<1xf32>");
}

#[test]
fn convolution_sets_only_its_own_attributes() {
    let mut lx = Lexer::new(CONV);
    let mut p = Parser::new(CONV, lx.tokenize());
    let op = p.parse_operation().unwrap();
    let keys = [
        "dim_numbers",
        "window_pad",
        "stride",
        "base_dilations",
        "window_dilations",
        "batch_group_count",
        "feature_group_count",
    ];
    let found: usize = keys.iter().filter(|k| op.attributes.get(k).is_some()).count();
    assert_eq!(found, 5);
    assert_eq!(op.attributes.len(), 5);
}

#[test]
fn matching_brace_from_any_position() {
    assert_eq!(find_matching_brace(&chars("a{b}"), 0), Some(3));
    assert_eq!(find_matching_brace(&chars("}{}"), 0), None);
    assert_eq!(find_matching_brace(&chars("{}"), 5), None);
    assert_eq!(find_matching_brace(&chars(""), 0), None);
}

#[test]
fn bracket_intvec_reads_comma_separated_digit_groups() {
    assert_eq!(try_parse_bracket_intvec(&chars("[1 2, , 3]")), Some(Ok((vec![12, 3], 10))));
    assert_eq!(try_parse_bracket_intvec(&chars("[1, -1]")), Some(Err(ParseError::BadIntVec)));
    assert_eq!(try_parse_bracket_intvec(&chars("[ ,, ]x")), Some(Ok((vec![], 6))));
}

#[test]
fn readable_lists_read_plainly() {
    assert_eq!(parse_bracket_intvec(&chars("[1, 2 3, 45] rest")), Ok((vec![1, 23, 45], 12)));
    assert_eq!(parse_bracket_intvec(&chars("[1, x]")), Err(ParseError::BadIntVec));
    assert_eq!(parse_bracket_intvec(&chars("[1, 2")), Err(ParseError::BadIntVec));
    assert_eq!(parse_pad_pairs(&chars("[[0, 1], [2, 3]]")), vec![(0, 1)]);
    assert_eq!(parse_pad_pairs(&chars("no brackets")), vec![]);
    assert_eq!(parse_pad_pairs(&chars("x ] [1, 2]")), vec![]);
}
