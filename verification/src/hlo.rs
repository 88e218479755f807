//! The lines of a StableHLO module, and what each of them holds.
use vstd::prelude::*;

use crate::ast::{Operation, OperationView, strings_view};
use crate::lexer::{Lexer, tokens_of};
use crate::lower::{
    LowerError,
    LowerErrorView,
    LowerStep,
    LowerStepView,
    law_unsupported_refused,
    lookup_spec,
    lower_spec,
    try_lower_op,
};
use crate::parser::{OpOutcome, ParseError, ParseErrorView, Parser, parse_operation_spec, parse_return_spec};
use crate::shape::{FuncArg, args_view, func_args_spec, try_parse_func_args_line};
use crate::text::{
    chars_of,
    str_eq,
    find,
    find_char_from,
    find_from,
    find_from_exec,
    lemma_find_from_bounds,
    occurs_at_exec,
    substring,
    trim,
    trim_range,
};

verus! {

broadcast use vstd::string::group_string_axioms;

/// The lines of `s` from index `a` on: the pieces between `\n`s, where a
/// final `\n` ends the last line rather than starting an empty one.
pub open spec fn lines_from(s: Seq<char>, a: int) -> Seq<Seq<char>>
    decreases s.len() + 1 - a,
{
    if a < 0 || a >= s.len() {
        Seq::empty()
    } else {
        match find_from(s, seq!['\n'], a) {
            None => seq![s.subrange(a, s.len() as int)],
            Some(k) => {
                proof {
                    lemma_find_from_bounds(s, seq!['\n'], a);
                }
                seq![s.subrange(a, k)] + lines_from(s, k + 1)
            },
        }
    }
}

/// Each of `ls` trimmed.
pub open spec fn trim_all(ls: Seq<Seq<char>>) -> Seq<Seq<char>> {
    ls.map_values(|l: Seq<char>| trim(l))
}

/// The lines of a module, each trimmed (`str::lines` then `str::trim`).
pub open spec fn module_lines_spec(s: Seq<char>) -> Seq<Seq<char>> {
    trim_all(lines_from(s, 0))
}

/// The trimmed lines of a module.
pub fn module_lines(contents: &str) -> (r: Vec<String>)
    ensures
        strings_view(r@) == module_lines_spec(contents@),
{
    let cs = chars_of(contents);
    let mut out: Vec<String> = Vec::new();
    let mut a: usize = 0;
    assert(strings_view(out@) =~= Seq::<Seq<char>>::empty());
    while a < cs.len()
        invariant
            a <= cs.len(),
            cs@ == contents@,
            trim_all(lines_from(cs@, 0)) == strings_view(out@) + trim_all(
                lines_from(cs@, a as int),
            ),
        decreases cs.len() - a,
    {
        let found = find_char_from(&cs, '\n', a);
        proof {
            lemma_find_from_bounds(cs@, seq!['\n'], a as int);
        }
        let end = match found {
            Some(k) => k,
            None => cs.len(),
        };
        let (lo, hi) = trim_range(&cs, a, end);
        let ghost before = strings_view(out@);
        let ghost rest_before = lines_from(cs@, a as int);
        out.push(substring(contents, lo, hi));
        assert(strings_view(out@) =~= before.push(trim(cs@.subrange(a as int, end as int))));
        match found {
            None => {
                assert(trim_all(rest_before) =~= seq![trim(cs@.subrange(a as int, end as int))]);
                assert(trim_all(lines_from(cs@, end as int)) =~= Seq::<Seq<char>>::empty());
                assert(strings_view(out@) + trim_all(lines_from(cs@, end as int))
                    =~= strings_view(out@));
                a = end;
            },
            Some(k) => {
                let ghost tail = lines_from(cs@, k + 1);
                assert(rest_before == seq![cs@.subrange(a as int, k as int)] + tail);
                assert(trim_all(rest_before) =~= seq![trim(cs@.subrange(a as int, k as int))]
                    + trim_all(tail));
                assert(before + trim_all(rest_before) =~= strings_view(out@)
                    + trim_all(tail));
                a = k + 1;
            },
        }
    }
    assert(lines_from(cs@, a as int) =~= Seq::<Seq<char>>::empty());
    assert(strings_view(out@) + Seq::<Seq<char>>::empty() =~= strings_view(out@));
    out
}

/// `s` starts with `pre`.
pub open spec fn starts_with(s: Seq<char>, pre: Seq<char>) -> bool {
    s.len() >= pre.len() && s.subrange(0, pre.len() as int) == pre
}

/// What a trimmed line of a module holds.
#[derive(Debug, Clone, Copy, PartialEq, Eq, Structural)]
pub enum LineKind {
    /// The `func.func` line that names the arguments.
    FuncHeader,
    /// An operation `%name = stablehlo.op ...`.
    Operation,
    /// The `return` line.
    Return,
    /// Anything else.
    Other,
}

/// What the trimmed line `l` holds.
pub open spec fn line_kind(l: Seq<char>) -> LineKind {
    if starts_with(l, "func.func"@) {
        LineKind::FuncHeader
    } else if starts_with(l, "%"@) && find(l, " = stablehlo."@) is Some {
        LineKind::Operation
    } else if starts_with(l, "return"@) {
        LineKind::Return
    } else {
        LineKind::Other
    }
}

/// Whether `s` starts with `pre`.
fn starts_with_exec(s: &Vec<char>, pre: &str) -> (r: bool)
    ensures
        r == starts_with(s@, pre@),
{
    let p = chars_of(pre);
    let r = occurs_at_exec(s, &p, 0);
    assert(r == starts_with(s@, pre@));
    r
}

/// What the trimmed line `line` holds.
pub fn classify_line(line: &str) -> (r: LineKind)
    ensures
        r == line_kind(line@),
{
    proof {
        reveal_strlit(" = stablehlo.");
    }
    let cs = chars_of(line);
    if starts_with_exec(&cs, "func.func") {
        LineKind::FuncHeader
    } else if starts_with_exec(&cs, "%") && find_from_exec(&cs, &chars_of(" = stablehlo."), 0).is_some() {
        LineKind::Operation
    } else if starts_with_exec(&cs, "return") {
        LineKind::Return
    } else {
        LineKind::Other
    }
}

/// Why a module could not be imported; each names the line (or the
/// operation) where importing stops.
#[derive(Debug, PartialEq)]
pub enum ImportError {
    /// The argument types of the function header cannot be read.
    MalformedArguments(String),
    /// A line holds a character that starts no token, or a number that cannot be read.
    Untokenizable(String),
    /// An operation line cannot be parsed.
    OpLine(String, ParseError),
    /// The attributes of a convolution cannot be read.
    MalformedConvolution(String),
    /// A `return` line cannot be parsed.
    ReturnLine(String, ParseError),
    /// The operation with this name cannot be lowered.
    Lowering(String, LowerError),
    /// The operation with this name has too few operands, or an unreadable result shape.
    MalformedLowering(String),
}

pub enum ImportErrorView {
    MalformedArguments(Seq<char>),
    Untokenizable(Seq<char>),
    OpLine(Seq<char>, ParseErrorView),
    MalformedConvolution(Seq<char>),
    ReturnLine(Seq<char>, ParseErrorView),
    Lowering(Seq<char>, LowerErrorView),
    MalformedLowering(Seq<char>),
}

impl View for ImportError {
    type V = ImportErrorView;

    open spec fn view(&self) -> ImportErrorView {
        match self {
            ImportError::MalformedArguments(l) => ImportErrorView::MalformedArguments(l@),
            ImportError::Untokenizable(l) => ImportErrorView::Untokenizable(l@),
            ImportError::OpLine(l, e) => ImportErrorView::OpLine(l@, e@),
            ImportError::MalformedConvolution(l) => ImportErrorView::MalformedConvolution(l@),
            ImportError::ReturnLine(l, e) => ImportErrorView::ReturnLine(l@, e@),
            ImportError::Lowering(n, e) => ImportErrorView::Lowering(n@, e@),
            ImportError::MalformedLowering(n) => ImportErrorView::MalformedLowering(n@),
        }
    }
}

/// What importing a module does: the function arguments to create, and the
/// graph steps to take, in order.
#[derive(Debug, PartialEq)]
pub struct ModulePlan {
    pub args: Vec<FuncArg>,
    pub steps: Vec<LowerStep>,
}

pub open spec fn steps_view(v: Seq<LowerStep>) -> Seq<LowerStepView> {
    v.map_values(|s: LowerStep| s@)
}

impl View for ModulePlan {
    type V = (Seq<(Seq<char>, Seq<usize>)>, Seq<LowerStepView>);

    open spec fn view(&self) -> (Seq<(Seq<char>, Seq<usize>)>, Seq<LowerStepView>) {
        (args_view(self.args@), steps_view(self.steps@))
    }
}

/// The first function header among `lines` from index `i` on.
pub open spec fn first_header(lines: Seq<Seq<char>>, i: int) -> Option<int>
    decreases lines.len() - i,
{
    if i < 0 || i >= lines.len() {
        None
    } else if line_kind(lines[i]) == LineKind::FuncHeader {
        Some(i)
    } else {
        first_header(lines, i + 1)
    }
}

/// The arguments of the first function header (none where there is no header).
pub open spec fn header_args_spec(lines: Seq<Seq<char>>) -> Result<
    Seq<(Seq<char>, Seq<usize>)>,
    ImportErrorView,
> {
    match first_header(lines, 0) {
        None => Ok(Seq::empty()),
        Some(h) => match func_args_spec(lines[h]) {
            None => Err(ImportErrorView::MalformedArguments(lines[h])),
            Some(args) => Ok(args),
        },
    }
}

/// The operation that a line holds: `Ok(None)` for a line that is neither an
/// operation nor a `return`.
pub open spec fn line_op_spec(l: Seq<char>) -> Result<Option<OperationView>, ImportErrorView> {
    match line_kind(l) {
        LineKind::Operation => match tokens_of(l) {
            None => Err(ImportErrorView::Untokenizable(l)),
            Some(t) => match parse_operation_spec(l, t, 0) {
                OpOutcome::Parsed(op, _) => Ok(Some(op)),
                OpOutcome::Failed(e, _) => Err(ImportErrorView::OpLine(l, e)),
                OpOutcome::Panics => Err(ImportErrorView::MalformedConvolution(l)),
            },
        },
        LineKind::Return => match tokens_of(l) {
            None => Err(ImportErrorView::Untokenizable(l)),
            Some(t) => match parse_return_spec(t, 0).0 {
                Ok(op) => Ok(Some(op)),
                Err(e) => Err(ImportErrorView::ReturnLine(l, e)),
            },
        },
        _ => Ok(None),
    }
}

/// The operations of `lines` from index `i` on, after those in `acc`;
/// the error of the first line that fails.
pub open spec fn ops_from(lines: Seq<Seq<char>>, i: int, acc: Seq<OperationView>) -> Result<
    Seq<OperationView>,
    ImportErrorView,
>
    decreases lines.len() - i,
{
    if i < 0 || i >= lines.len() {
        Ok(acc)
    } else {
        match line_op_spec(lines[i]) {
            Err(e) => Err(e),
            Ok(None) => ops_from(lines, i + 1, acc),
            Ok(Some(op)) => ops_from(lines, i + 1, acc.push(op)),
        }
    }
}

/// The graph steps of `ops` from index `i` on, after those in `acc`; the
/// error of the first operation that cannot be lowered.
pub open spec fn steps_from(ops: Seq<OperationView>, i: int, acc: Seq<LowerStepView>) -> Result<
    Seq<LowerStepView>,
    ImportErrorView,
>
    decreases ops.len() - i,
{
    if i < 0 || i >= ops.len() {
        Ok(acc)
    } else {
        match lower_spec(ops[i]) {
            None => Err(ImportErrorView::MalformedLowering(ops[i].name)),
            Some(Err(e)) => Err(ImportErrorView::Lowering(ops[i].name, e)),
            Some(Ok(s)) => steps_from(ops, i + 1, acc.push(s)),
        }
    }
}

/// What importing the module text `contents` does: the header's arguments
/// first, then the operations and `return` of every line, then their
/// lowering, each stage failing at its first failure.
pub open spec fn plan_spec(contents: Seq<char>) -> Result<
    (Seq<(Seq<char>, Seq<usize>)>, Seq<LowerStepView>),
    ImportErrorView,
> {
    let lines = module_lines_spec(contents);
    match header_args_spec(lines) {
        Err(e) => Err(e),
        Ok(args) => match ops_from(lines, 0, Seq::empty()) {
            Err(e) => Err(e),
            Ok(ops) => match steps_from(ops, 0, Seq::empty()) {
                Err(e) => Err(e),
                Ok(steps) => Ok((args, steps)),
            },
        },
    }
}

pub open spec fn ops_view(v: Seq<Operation>) -> Seq<OperationView> {
    v.map_values(|o: Operation| o@)
}

/// The operation that the line `l` holds, if it is an operation or a `return`.
fn line_op(l: &String) -> (r: Result<Option<Operation>, ImportError>)
    ensures
        match line_op_spec(l@) {
            Ok(None) => r matches Ok(None),
            Ok(Some(op)) => r matches Ok(Some(x)) && x@ == op,
            Err(e) => r matches Err(x) && x@ == e,
        },
{
    let line = l.as_str();
    let kind = classify_line(line);
    if kind != LineKind::Operation && kind != LineKind::Return {
        return Ok(None);
    }
    let mut lx = Lexer::new(line);
    let toks = match lx.try_tokenize() {
        Some(t) => t,
        None => return Err(ImportError::Untokenizable(l.clone())),
    };
    let mut p = Parser::new(line, toks);
    if kind == LineKind::Operation {
        match p.try_parse_operation() {
            Some(Ok(op)) => Ok(Some(op)),
            Some(Err(e)) => Err(ImportError::OpLine(l.clone(), e)),
            None => Err(ImportError::MalformedConvolution(l.clone())),
        }
    } else {
        match p.parse_return() {
            Ok(op) => Ok(Some(op)),
            Err(e) => Err(ImportError::ReturnLine(l.clone(), e)),
        }
    }
}

/// The arguments of the first function header among `lines`.
fn header_args(lines: &Vec<String>) -> (r: Result<Vec<FuncArg>, ImportError>)
    ensures
        match header_args_spec(strings_view(lines@)) {
            Ok(a) => r matches Ok(x) && args_view(x@) == a,
            Err(e) => r matches Err(x) && x@ == e,
        },
{
    let ghost ls = strings_view(lines@);
    let mut i: usize = 0;
    while i < lines.len()
        invariant
            i <= lines.len(),
            ls == strings_view(lines@),
            first_header(ls, 0) == first_header(ls, i as int),
        decreases lines.len() - i,
    {
        assert(ls[i as int] == lines@[i as int]@);
        if classify_line(lines[i].as_str()) == LineKind::FuncHeader {
            return match try_parse_func_args_line(lines[i].as_str()) {
                Some(a) => Ok(a),
                None => Err(ImportError::MalformedArguments(lines[i].clone())),
            };
        }
        i = i + 1;
    }
    let args: Vec<FuncArg> = Vec::new();
    assert(args_view(args@) =~= Seq::<(Seq<char>, Seq<usize>)>::empty());
    Ok(args)
}

/// The operations and `return`s of `lines`, in order.
fn parse_lines(lines: &Vec<String>) -> (r: Result<Vec<Operation>, ImportError>)
    ensures
        match ops_from(strings_view(lines@), 0, Seq::empty()) {
            Ok(o) => r matches Ok(x) && ops_view(x@) == o,
            Err(e) => r matches Err(x) && x@ == e,
        },
{
    let ghost ls = strings_view(lines@);
    let mut ops: Vec<Operation> = Vec::new();
    let mut j: usize = 0;
    assert(ops_view(ops@) =~= Seq::<OperationView>::empty());
    while j < lines.len()
        invariant
            j <= lines.len(),
            ls == strings_view(lines@),
            ops_from(ls, 0, Seq::empty()) == ops_from(ls, j as int, ops_view(ops@)),
        decreases lines.len() - j,
    {
        assert(ls[j as int] == lines@[j as int]@);
        match line_op(&lines[j]) {
            Err(e) => return Err(e),
            Ok(None) => {},
            Ok(Some(op)) => {
                let ghost before = ops_view(ops@);
                ops.push(op);
                assert(ops_view(ops@) =~= before.push(op@));
            },
        }
        j = j + 1;
    }
    Ok(ops)
}

/// The graph steps of `ops`, in order.
fn lower_ops(ops: &Vec<Operation>) -> (r: Result<Vec<LowerStep>, ImportError>)
    ensures
        match steps_from(ops_view(ops@), 0, Seq::empty()) {
            Ok(s) => r matches Ok(x) && steps_view(x@) == s,
            Err(e) => r matches Err(x) && x@ == e,
        },
{
    let ghost os = ops_view(ops@);
    let mut steps: Vec<LowerStep> = Vec::new();
    let mut k: usize = 0;
    assert(steps_view(steps@) =~= Seq::<LowerStepView>::empty());
    while k < ops.len()
        invariant
            k <= ops.len(),
            os == ops_view(ops@),
            steps_from(os, 0, Seq::empty()) == steps_from(os, k as int, steps_view(steps@)),
        decreases ops.len() - k,
    {
        assert(os[k as int] == ops@[k as int]@);
        match try_lower_op(&ops[k]) {
            None => return Err(ImportError::MalformedLowering(ops[k].name.clone())),
            Some(Err(e)) => return Err(ImportError::Lowering(ops[k].name.clone(), e)),
            Some(Ok(s)) => {
                let ghost before = steps_view(steps@);
                steps.push(s);
                assert(steps_view(steps@) =~= before.push(s@));
            },
        }
        k = k + 1;
    }
    Ok(steps)
}

/// What importing the module text `contents` does: the function arguments to
/// create and the graph steps to take, or the first failure.
pub fn plan_module(contents: &str) -> (r: Result<ModulePlan, ImportError>)
    ensures
        match plan_spec(contents@) {
            Ok(p) => r matches Ok(x) && x@ == p,
            Err(e) => r matches Err(x) && x@ == e,
        },
{
    let lines = module_lines(contents);
    let args = header_args(&lines)?;
    let ops = parse_lines(&lines)?;
    let steps = lower_ops(&ops)?;
    Ok(ModulePlan { args, steps })
}

/// The values that the step `s` reads.
pub open spec fn step_inputs(s: LowerStepView) -> Seq<Seq<char>> {
    match s {
        LowerStepView::Unary { input, .. } => seq![input],
        LowerStepView::Binary { lhs, rhs, .. } => seq![lhs, rhs],
        LowerStepView::Reshape { input, .. } => seq![input],
        LowerStepView::Expand { input, .. } => seq![input],
        LowerStepView::Concat { lhs, rhs, .. } => seq![lhs, rhs],
        LowerStepView::Constant { .. } => Seq::empty(),
        LowerStepView::SumReduce { input, .. } => seq![input],
        LowerStepView::Retrieve { name } => seq![name],
        LowerStepView::Nothing => Seq::empty(),
    }
}

/// The values that the step `s` defines.
pub open spec fn step_outputs(s: LowerStepView) -> Seq<Seq<char>> {
    match s {
        LowerStepView::Unary { output, .. } => seq![output],
        LowerStepView::Binary { output, .. } => seq![output],
        LowerStepView::Reshape { output, .. } => seq![output],
        LowerStepView::Expand { output, .. } => seq![output],
        LowerStepView::Concat { output, .. } => seq![output],
        LowerStepView::Constant { output, .. } => seq![output],
        LowerStepView::SumReduce { output, .. } => seq![output],
        LowerStepView::Retrieve { .. } => Seq::empty(),
        LowerStepView::Nothing => Seq::empty(),
    }
}

/// The first of `ins` from index `j` on that is not among `defined`.
pub open spec fn first_missing(ins: Seq<Seq<char>>, defined: Seq<Seq<char>>, j: int) -> Option<
    Seq<char>,
>
    decreases ins.len() - j,
{
    if j < 0 || j >= ins.len() {
        None
    } else if defined.contains(ins[j]) {
        first_missing(ins, defined, j + 1)
    } else {
        Some(ins[j])
    }
}

/// The first value read by the steps from index `k` on that is neither among
/// `defined` nor defined by an earlier step.
pub open spec fn first_undefined(defined: Seq<Seq<char>>, steps: Seq<LowerStepView>, k: int) -> Option<
    Seq<char>,
>
    decreases steps.len() - k,
{
    if k < 0 || k >= steps.len() {
        None
    } else {
        match first_missing(step_inputs(steps[k]), defined, 0) {
            Some(n) => Some(n),
            None => first_undefined(defined + step_outputs(steps[k]), steps, k + 1),
        }
    }
}

/// The names of the function arguments of a plan.
pub open spec fn arg_names(args: Seq<(Seq<char>, Seq<usize>)>) -> Seq<Seq<char>> {
    args.map_values(|a: (Seq<char>, Seq<usize>)| a.0)
}

/// The first value that a step of the plan `p` reads before anything defines
/// it: not an argument and not the output of an earlier step.
pub open spec fn plan_undefined_input(p: (Seq<(Seq<char>, Seq<usize>)>, Seq<LowerStepView>)) -> Option<
    Seq<char>,
> {
    first_undefined(arg_names(p.0), p.1, 0)
}

/// Whether `name` is among `defined`.
fn is_defined(defined: &Vec<String>, name: &String) -> (r: bool)
    ensures
        r == strings_view(defined@).contains(name@),
{
    let mut j: usize = 0;
    while j < defined.len()
        invariant
            j <= defined.len(),
            forall|q: int| 0 <= q < j ==> strings_view(defined@)[q] != name@,
        decreases defined.len() - j,
    {
        if str_eq(defined[j].as_str(), name.as_str()) {
            assert(strings_view(defined@)[j as int] == name@);
            return true;
        }
        j = j + 1;
    }
    false
}

/// The values that the step `s` reads, and those it defines.
fn step_names(s: &LowerStep) -> (r: (Vec<String>, Vec<String>))
    ensures
        strings_view(r.0@) == step_inputs(s@),
        strings_view(r.1@) == step_outputs(s@),
{
    let mut ins: Vec<String> = Vec::new();
    let mut outs: Vec<String> = Vec::new();
    match s {
        LowerStep::Unary { input, output, .. } => {
            ins.push(input.clone());
            outs.push(output.clone());
        },
        LowerStep::Binary { lhs, rhs, output, .. } => {
            ins.push(lhs.clone());
            ins.push(rhs.clone());
            outs.push(output.clone());
        },
        LowerStep::Reshape { input, output, .. } => {
            ins.push(input.clone());
            outs.push(output.clone());
        },
        LowerStep::Expand { input, output, .. } => {
            ins.push(input.clone());
            outs.push(output.clone());
        },
        LowerStep::Concat { lhs, rhs, output, .. } => {
            ins.push(lhs.clone());
            ins.push(rhs.clone());
            outs.push(output.clone());
        },
        LowerStep::Constant { output, .. } => {
            outs.push(output.clone());
        },
        LowerStep::SumReduce { input, output, .. } => {
            ins.push(input.clone());
            outs.push(output.clone());
        },
        LowerStep::Retrieve { name } => {
            ins.push(name.clone());
        },
        LowerStep::Nothing => {},
    }
    assert(strings_view(ins@) =~= step_inputs(s@));
    assert(strings_view(outs@) =~= step_outputs(s@));
    (ins, outs)
}

/// The first value that a step of `plan` reads before anything defines it
/// (taking those steps in order), or `None` where every value read is an
/// argument or the output of an earlier step.
pub fn undefined_input(plan: &ModulePlan) -> (r: Option<String>)
    ensures
        match plan_undefined_input(plan@) {
            None => r is None,
            Some(n) => r matches Some(x) && x@ == n,
        },
{
    let ghost steps = steps_view(plan.steps@);
    let mut defined: Vec<String> = Vec::new();
    let mut i: usize = 0;
    while i < plan.args.len()
        invariant
            i <= plan.args.len(),
            strings_view(defined@) == arg_names(args_view(plan.args@)).take(i as int),
        decreases plan.args.len() - i,
    {
        let ghost old_defined = defined@;
        defined.push(plan.args[i].name.clone());
        assert(defined@ == old_defined.push(plan.args@[i as int].name));
        assert(strings_view(defined@) =~= strings_view(old_defined).push(plan.args@[i as int].name@));
        assert(arg_names(args_view(plan.args@)).take(i + 1) =~= arg_names(args_view(plan.args@)).take(
            i as int,
        ).push(plan.args@[i as int].name@));
        assert(strings_view(defined@) =~= arg_names(args_view(plan.args@)).take(i + 1));
        i = i + 1;
    }
    assert(arg_names(args_view(plan.args@)).take(i as int) =~= arg_names(args_view(plan.args@)));
    let mut k: usize = 0;
    while k < plan.steps.len()
        invariant
            k <= plan.steps.len(),
            steps == steps_view(plan.steps@),
            plan_undefined_input(plan@) == first_undefined(strings_view(defined@), steps, k as int),
        decreases plan.steps.len() - k,
    {
        let (ins, outs) = step_names(&plan.steps[k]);
        assert(steps[k as int] == plan.steps@[k as int]@);
        let mut j: usize = 0;
        while j < ins.len()
            invariant
                j <= ins.len(),
                k < plan.steps.len(),
                steps == steps_view(plan.steps@),
                strings_view(ins@) == step_inputs(steps[k as int]),
                plan_undefined_input(plan@) == first_undefined(strings_view(defined@), steps, k as int),
                first_missing(strings_view(ins@), strings_view(defined@), 0) == first_missing(
                    strings_view(ins@),
                    strings_view(defined@),
                    j as int,
                ),
            decreases ins.len() - j,
        {
            if !is_defined(&defined, &ins[j]) {
                assert(strings_view(ins@)[j as int] == ins@[j as int]@);
                return Some(ins[j].clone());
            }
            j = j + 1;
        }
        let ghost before = strings_view(defined@);
        let mut o: usize = 0;
        while o < outs.len()
            invariant
                o <= outs.len(),
                strings_view(defined@) == before + strings_view(outs@).take(o as int),
            decreases outs.len() - o,
        {
            let ghost old_defined = defined@;
            defined.push(outs[o].clone());
            assert(defined@ == old_defined.push(outs@[o as int]));
            assert(strings_view(defined@) =~= strings_view(old_defined).push(outs@[o as int]@));
            assert(strings_view(outs@).take(o + 1) =~= strings_view(outs@).take(o as int).push(
                outs@[o as int]@,
            ));
            assert(strings_view(defined@) =~= before + strings_view(outs@).take(o + 1));
            o = o + 1;
        }
        assert(strings_view(outs@).take(o as int) =~= strings_view(outs@));
        k = k + 1;
    }
    None
}

proof fn lemma_ops_from_fails(lines: Seq<Seq<char>>, i0: int, acc: Seq<OperationView>, i: int)
    requires
        0 <= i0 <= i < lines.len(),
        line_op_spec(lines[i]) is Err,
    ensures
        ops_from(lines, i0, acc) is Err,
    decreases lines.len() - i0,
{
    if i0 < i {
        match line_op_spec(lines[i0]) {
            Err(_) => {},
            Ok(None) => lemma_ops_from_fails(lines, i0 + 1, acc, i),
            Ok(Some(op)) => lemma_ops_from_fails(lines, i0 + 1, acc.push(op), i),
        }
    }
}

proof fn lemma_ops_from_keeps(lines: Seq<Seq<char>>, i0: int, acc: Seq<OperationView>, i: int)
    requires
        0 <= i0 <= i < lines.len(),
        line_op_spec(lines[i]) is Ok,
    ensures
        ops_from(lines, i0, acc) matches Ok(ops) ==> (line_op_spec(lines[i]) matches Ok(Some(op))
            ==> ops.contains(op)),
    decreases lines.len() - i0,
{
    match line_op_spec(lines[i0]) {
        Err(_) => {},
        Ok(None) => {
            if i0 < i {
                lemma_ops_from_keeps(lines, i0 + 1, acc, i);
            }
        },
        Ok(Some(op0)) => {
            if i0 < i {
                lemma_ops_from_keeps(lines, i0 + 1, acc.push(op0), i);
            } else {
                lemma_ops_from_prefix(lines, i0 + 1, acc.push(op0));
                let a2 = acc.push(op0);
                if let Ok(ops) = ops_from(lines, i0 + 1, a2) {
                    assert(ops[acc.len() as int] == a2[acc.len() as int]);
                }
            }
        },
    }
}

proof fn lemma_ops_from_prefix(lines: Seq<Seq<char>>, i0: int, acc: Seq<OperationView>)
    ensures
        ops_from(lines, i0, acc) matches Ok(ops) ==> ops.len() >= acc.len() && forall|k: int|
            0 <= k < acc.len() ==> ops[k] == acc[k],
    decreases lines.len() - i0,
{
    if 0 <= i0 < lines.len() {
        match line_op_spec(lines[i0]) {
            Err(_) => {},
            Ok(None) => lemma_ops_from_prefix(lines, i0 + 1, acc),
            Ok(Some(op)) => {
                lemma_ops_from_prefix(lines, i0 + 1, acc.push(op));
                if let Ok(ops) = ops_from(lines, i0 + 1, acc.push(op)) {
                    assert forall|k: int| 0 <= k < acc.len() implies ops[k] == acc[k] by {
                        assert(acc.push(op)[k] == acc[k]);
                    }
                }
            },
        }
    }
}

proof fn lemma_steps_from_fails(ops: Seq<OperationView>, k0: int, acc: Seq<LowerStepView>, k: int)
    requires
        0 <= k0 <= k < ops.len(),
        !(lower_spec(ops[k]) matches Some(Ok(_))),
    ensures
        steps_from(ops, k0, acc) is Err,
    decreases ops.len() - k0,
{
    if k0 < k {
        if let Some(Ok(st)) = lower_spec(ops[k0]) {
            lemma_steps_from_fails(ops, k0 + 1, acc.push(st), k);
        }
    }
}

/// Importing a module fails where one of its operation or `return` lines
/// cannot be read (it does not lex, does not parse, or holds convolution
/// attributes that cannot be read), and where one of its operations names an
/// operation that lowering does not know.
pub proof fn law_plan_fails_on_bad_line(contents: Seq<char>, i: int)
    requires
        0 <= i < module_lines_spec(contents).len(),
    ensures
        line_op_spec(module_lines_spec(contents)[i]) is Err ==> plan_spec(contents) is Err,
        line_op_spec(module_lines_spec(contents)[i]) matches Ok(Some(op)) && lookup_spec(op.name)
            is None ==> plan_spec(contents) is Err,
{
    let lines = module_lines_spec(contents);
    if line_op_spec(lines[i]) is Err {
        lemma_ops_from_fails(lines, 0, Seq::empty(), i);
    } else {
        lemma_ops_from_keeps(lines, 0, Seq::empty(), i);
        if let Ok(Some(op)) = line_op_spec(lines[i]) {
            if lookup_spec(op.name) is None {
                law_unsupported_refused(op);
                if let Ok(ops) = ops_from(lines, 0, Seq::empty()) {
                    let k = choose|k: int| 0 <= k < ops.len() && ops[k] == op;
                    lemma_steps_from_fails(ops, 0, Seq::empty(), k);
                }
            }
        }
    }
}

/// Every line that starts with `func.func` is a function header, whatever
/// follows (`func.func public @main(..)` too).
pub proof fn law_func_lines_are_headers(l: Seq<char>)
    ensures
        starts_with(l, "func.func"@) ==> line_kind(l) == LineKind::FuncHeader,
        line_kind(l) == LineKind::FuncHeader ==> starts_with(l, "func.func"@),
{
}

proof fn lemma_first_header_is_first_func_line(lines: Seq<Seq<char>>, i: int)
    requires
        0 <= i,
    ensures
        first_header(lines, i) matches Some(h) ==> i <= h < lines.len() && starts_with(
            lines[h],
            "func.func"@,
        ) && forall|j: int| i <= j < h ==> !starts_with(#[trigger] lines[j], "func.func"@),
        first_header(lines, i) is None ==> forall|j: int|
            i <= j < lines.len() ==> !starts_with(#[trigger] lines[j], "func.func"@),
    decreases lines.len() - i,
{
    if i < lines.len() {
        law_func_lines_are_headers(lines[i]);
        lemma_first_header_is_first_func_line(lines, i + 1);
    }
}

/// The arguments of an imported module are those of its first line that
/// starts with `func.func`, and there are none where no line does.
pub proof fn law_plan_args_from_first_func_line(contents: Seq<char>)
    ensures
        ({
            let lines = module_lines_spec(contents);
            plan_spec(contents) matches Ok(p) ==> {
                &&& forall|h: int|
                    0 <= h < lines.len() && starts_with(#[trigger] lines[h], "func.func"@) && (
                    forall|j: int| 0 <= j < h ==> !starts_with(#[trigger] lines[j], "func.func"@))
                        ==> func_args_spec(lines[h]) == Some(p.0)
                &&& (forall|j: int|
                    0 <= j < lines.len() ==> !starts_with(#[trigger] lines[j], "func.func"@))
                    ==> p.0 == Seq::<(Seq<char>, Seq<usize>)>::empty()
            }
        }),
{
    let lines = module_lines_spec(contents);
    lemma_first_header_is_first_func_line(lines, 0);
    if let Ok(p) = plan_spec(contents) {
        assert forall|h: int|
            0 <= h < lines.len() && starts_with(#[trigger] lines[h], "func.func"@) && (forall|j: int|
                0 <= j < h ==> !starts_with(#[trigger] lines[j], "func.func"@)) implies func_args_spec(
            lines[h],
        ) == Some(p.0) by {
            match first_header(lines, 0) {
                Some(h2) => {
                    if h2 < h {
                        assert(!starts_with(lines[h2], "func.func"@));
                    } else if h < h2 {
                        assert(!starts_with(lines[h], "func.func"@));
                    }
                },
                None => {
                    assert(!starts_with(lines[h], "func.func"@));
                },
            }
        }
        if forall|j: int| 0 <= j < lines.len() ==> !starts_with(#[trigger] lines[j], "func.func"@) {
            if let Some(h2) = first_header(lines, 0) {
                assert(!starts_with(lines[h2], "func.func"@));
            }
        }
    }
}

} // verus!
