use luminal_hlo::hlo::{classify_line, module_lines, LineKind};

#[test]
fn module_lines_are_trimmed() {
    let text = "module {\n  func.func @main(%a: tensor<f32>) -> tensor<f32> {\r\n    return %a : tensor<f32>\n  }\n}\n";
    assert_eq!(
        module_lines(text),
        vec![
            "module {".to_string(),
            "func.func @main(%a: tensor<f32>) -> tensor<f32> {".to_string(),
            "return %a : tensor<f32>".to_string(),
            "}".to_string(),
            "}".to_string(),
        ]
    );
}

#[test]
fn module_lines_edge_cases() {
    assert_eq!(module_lines(""), Vec::<String>::new());
    assert_eq!(module_lines("\n"), vec![String::new()]);
    assert_eq!(module_lines("a\n\n b"), vec!["a".to_string(), String::new(), "b".to_string()]);
    for (i, l) in "x \n y\r\nz".lines().map(str::trim).enumerate() {
        assert_eq!(module_lines("x \n y\r\nz")[i], l);
    }
}

#[test]
fn classify_lines() {
    assert_eq!(classify_line("func.func @main() {"), LineKind::FuncHeader);
    assert_eq!(classify_line("%0 = stablehlo.add %a, %b : tensor<f32>"), LineKind::Operation);
    assert_eq!(classify_line("%0 = foo.add %a"), LineKind::Other);
    assert_eq!(classify_line("return %0 : tensor<f32>"), LineKind::Return);
    assert_eq!(classify_line("}"), LineKind::Other);
    assert_eq!(classify_line(""), LineKind::Other);
}

use luminal_hlo::hlo::{plan_module, ImportError, ModulePlan};
use luminal_hlo::lower::{BinaryOp, LowerError, LowerStep};
use luminal_hlo::parser::ParseError;
use luminal_hlo::shape::FuncArg;

const MODULE: &str = "module @m {
  func.func @main(%arg0: tensor<2xf32>, %arg1: tensor<2xf32>) -> tensor<2xf32> {
    %0 = stablehlo.add %arg0, %arg1 : tensor<2xf32>
    %1 = stablehlo.maximum %0, %arg1 : tensor<2xf32>
    return %1 : tensor<2xf32>
  }
}
";

#[test]
fn plan_of_a_module() {
    let plan = plan_module(MODULE).unwrap();
    assert_eq!(
        plan,
        ModulePlan {
            args: vec![
                FuncArg { name: "%arg0".to_string(), shape: vec![2] },
                FuncArg { name: "%arg1".to_string(), shape: vec![2] },
            ],
            steps: vec![
                LowerStep::Binary {
                    op: BinaryOp::Add,
                    lhs: "%arg0".to_string(),
                    rhs: "%arg1".to_string(),
                    output: "%0".to_string(),
                },
                LowerStep::Binary {
                    op: BinaryOp::Maximum,
                    lhs: "%0".to_string(),
                    rhs: "%arg1".to_string(),
                    output: "%1".to_string(),
                },
                LowerStep::Retrieve { name: "%1".to_string() },
            ],
        }
    );
}

#[test]
fn plan_failures() {
    let bad_op = "%0 = stablehlo.add %a, %b\n";
    assert_eq!(
        plan_module(bad_op).unwrap_err(),
        ImportError::OpLine("%0 = stablehlo.add %a, %b".to_string(), ParseError::UnexpectedOperandToken(None))
    );
    assert_eq!(
        plan_module("return\n").unwrap_err(),
        ImportError::ReturnLine("return".to_string(), ParseError::ReturnMissingIdent)
    );
    assert_eq!(
        plan_module("%0 = stablehlo.add %a + %b :\n").unwrap_err(),
        ImportError::Untokenizable("%0 = stablehlo.add %a + %b :".to_string())
    );
    assert_eq!(
        plan_module("func.func @f(%a: f32) {\n").unwrap_err(),
        ImportError::MalformedArguments("func.func @f(%a: f32) {".to_string())
    );
    assert_eq!(
        plan_module("%0 = stablehlo.tanh %a : tensor<f32>\n").unwrap_err(),
        ImportError::Lowering("stablehlo.tanh".to_string(), LowerError::Unsupported("stablehlo.tanh".to_string()))
    );
    assert_eq!(
        plan_module("%0 = stablehlo.add %a : tensor<f32>\n").unwrap_err(),
        ImportError::MalformedLowering("stablehlo.add".to_string())
    );
    assert_eq!(
        plan_module("%0 = stablehlo.convolution(%a) : window = {pad = [[0} x\n").unwrap_err(),
        ImportError::MalformedConvolution("%0 = stablehlo.convolution(%a) : window = {pad = [[0} x".to_string())
    );
}

#[test]
fn plan_of_empty_module() {
    assert_eq!(plan_module("").unwrap(), ModulePlan { args: vec![], steps: vec![] });
}

#[test]
fn every_value_read_is_defined_first() {
    let plan = plan_module(MODULE).unwrap();
    assert_eq!(luminal_hlo::hlo::undefined_input(&plan), None);
    let text = "func.func @main(%arg0: tensor<2xf32>) -> tensor<2xf32> {
    %0 = stablehlo.add %arg0, %x : tensor<2xf32>
    %1 = stablehlo.add %0, %y : tensor<2xf32>
    return %1 : tensor<2xf32>
}";
    let plan = plan_module(text).unwrap();
    assert_eq!(luminal_hlo::hlo::undefined_input(&plan), Some("%x".to_string()));
    let text = "func.func @main() -> tensor<2xf32> {
    return %1 : tensor<2xf32>
}";
    let plan = plan_module(text).unwrap();
    assert_eq!(luminal_hlo::hlo::undefined_input(&plan), Some("%1".to_string()));
}
