//! Tensor shapes written as `tensor<2x3xf32>`, and the arguments of a
//! `func.func` line.
use vstd::prelude::*;

use crate::text::{
    chars_of,
    find,
    find_char_from,
    find_from,
    find_from_exec,
    lemma_find_from_bounds,
    occurs_at_exec,
    parse_usize,
    parse_usize_spec,
    slice_chars,
    substring,
    trim,
    trim_end,
    trim_range,
    trim_start,
    is_white_space,
};

verus! {

broadcast use vstd::string::group_string_axioms;

/// `s` ends with `suf`.
pub open spec fn ends_with(s: Seq<char>, suf: Seq<char>) -> bool {
    s.len() >= suf.len() && s.subrange(s.len() - suf.len(), s.len() as int) == suf
}

/// `s` ends with the name of an element type.
pub open spec fn ends_with_dtype(s: Seq<char>) -> bool {
    ends_with(s, "f32"@) || ends_with(s, "f16"@) || ends_with(s, "i32"@) || ends_with(s, "i64"@)
}

/// The dimension that one `x`-separated piece of a shape stands for: none for
/// the element type or for a piece that is not a number.
pub open spec fn dim_of_piece(p: Seq<char>) -> Seq<usize> {
    let t = trim(p);
    if ends_with_dtype(t) {
        Seq::empty()
    } else {
        match parse_usize_spec(t) {
            Some(v) => seq![v],
            None => Seq::empty(),
        }
    }
}

/// The dimensions of the `x`-separated pieces of `s` from index `a` on.
pub open spec fn dims_from(s: Seq<char>, a: int) -> Seq<usize>
    decreases s.len() + 1 - a,
{
    if a < 0 || a > s.len() {
        Seq::empty()
    } else {
        match find_from(s, seq!['x'], a) {
            None => dim_of_piece(s.subrange(a, s.len() as int)),
            Some(k) => {
                proof {
                    lemma_find_from_bounds(s, seq!['x'], a);
                }
                dim_of_piece(s.subrange(a, k)) + dims_from(s, k + 1)
            },
        }
    }
}

/// The dimensions written between `<` and `>`: `[1]` for a scalar (an element
/// type alone) or where no dimension can be read.
pub open spec fn shape_dims(shape: Seq<char>) -> Seq<usize> {
    if !shape.contains('x') && ends_with_dtype(shape) {
        seq![1]
    } else if dims_from(shape, 0).len() == 0 {
        seq![1]
    } else {
        dims_from(shape, 0)
    }
}

/// The shape of a tensor type `..<dims>..`; `None` where it has no `<`, no
/// `>`, or its first `>` comes before its first `<` (reading panics).
pub open spec fn tensor_shape_spec(s: Seq<char>) -> Option<Seq<usize>> {
    match (find(s, seq!['<']), find(s, seq!['>'])) {
        (Some(a), Some(b)) => if a < b {
            Some(shape_dims(s.subrange(a + 1, b)))
        } else {
            None
        },
        _ => None,
    }
}

/// The shape of the first `tensor<..>` type of a line; `None` where there is
/// none, or it is not closed (reading panics).
pub open spec fn output_shape_spec(s: Seq<char>) -> Option<Seq<usize>> {
    match find(s, "tensor<"@) {
        None => None,
        Some(ts) => {
            let te = match find_from(s, seq!['>'], ts) {
                Some(p) => p + 1,
                None => s.len() as int,
            };
            tensor_shape_spec(s.subrange(ts, te))
        },
    }
}

/// Whether `s` ends with `suf`.
fn ends_with_exec(s: &Vec<char>, suf: &str) -> (r: bool)
    ensures
        r == ends_with(s@, suf@),
{
    let p = chars_of(suf);
    if p.len() > s.len() {
        return false;
    }
    occurs_at_exec(s, &p, s.len() - p.len())
}

/// Whether `s` ends with the name of an element type.
fn ends_with_dtype_exec(s: &Vec<char>) -> (r: bool)
    ensures
        r == ends_with_dtype(s@),
{
    ends_with_exec(s, "f32") || ends_with_exec(s, "f16") || ends_with_exec(s, "i32")
        || ends_with_exec(s, "i64")
}

/// The dimension of one `x`-separated piece `s[a..b]`, pushed onto `dims`.
fn push_dim_of_piece(s: &Vec<char>, a: usize, b: usize, dims: &mut Vec<usize>)
    requires
        a <= b <= s.len(),
    ensures
        final(dims)@ == old(dims)@ + dim_of_piece(s@.subrange(a as int, b as int)),
{
    let (lo, hi) = trim_range(s, a, b);
    let t = slice_chars(s, lo, hi);
    if ends_with_dtype_exec(&t) {
        assert(old(dims)@ + Seq::<usize>::empty() =~= old(dims)@);
        return ;
    }
    match parse_usize(s, lo, hi) {
        Some(v) => {
            dims.push(v);
        },
        None => {
            assert(old(dims)@ + Seq::<usize>::empty() =~= old(dims)@);
        },
    }
}

/// The shape of a tensor type `..<dims>..`; `None` where reading panics.
fn try_parse_tensor_shape(s: &Vec<char>) -> (r: Option<Vec<usize>>)
    ensures
        match tensor_shape_spec(s@) {
            None => r is None,
            Some(d) => r matches Some(x) && x@ == d,
        },
{
    let start = find_char_from(s, '<', 0)?;
    let end = find_char_from(s, '>', 0)?;
    if end < start + 1 {
        return None;
    }
    let shape = slice_chars(s, start + 1, end);
    let has_x = match find_char_from(&shape, 'x', 0) {
        Some(_) => true,
        None => false,
    };
    proof {
        lemma_contains_char(shape@, 'x');
    }
    if !has_x && ends_with_dtype_exec(&shape) {
        let mut one: Vec<usize> = Vec::new();
        one.push(1);
        assert(one@ =~= seq![1usize]);
        return Some(one);
    }
    let mut dims: Vec<usize> = Vec::new();
    let mut a: usize = 0;
    assert(dims@ + dims_from(shape@, 0) =~= dims_from(shape@, 0));
    loop
        invariant_except_break
            dims_from(shape@, 0) == dims@ + dims_from(shape@, a as int),
        invariant
            a <= shape.len(),
        ensures
            dims_from(shape@, 0) == dims@,
        decreases shape.len() - a,
    {
        let found = find_char_from(&shape, 'x', a);
        proof {
            lemma_find_from_bounds(shape@, seq!['x'], a as int);
        }
        let ghost before = dims@;
        match found {
            None => {
                push_dim_of_piece(&shape, a, shape.len(), &mut dims);
                assert(dims_from(shape@, a as int) == dim_of_piece(shape@.subrange(a as int, shape@.len() as int)));
                break ;
            },
            Some(k) => {
                push_dim_of_piece(&shape, a, k, &mut dims);
                assert(before + (dim_of_piece(shape@.subrange(a as int, k as int)) + dims_from(
                    shape@,
                    k + 1,
                )) =~= (before + dim_of_piece(shape@.subrange(a as int, k as int))) + dims_from(
                    shape@,
                    k + 1,
                ));
                a = k + 1;
            },
        }
    }
    if dims.len() == 0 {
        dims.push(1);
        assert(dims@ =~= seq![1usize]);
    }
    Some(dims)
}

/// The shape of a tensor type `..<dims>..`.
fn parse_tensor_shape(s: &Vec<char>) -> (r: Vec<usize>)
    requires
        tensor_shape_spec(s@) is Some,
    ensures
        r@ == tensor_shape_spec(s@)->0,
{
    try_parse_tensor_shape(s).unwrap()
}

/// `s.contains(c)` is finding `c` in `s`.
pub proof fn lemma_contains_char(s: Seq<char>, c: char)
    ensures
        s.contains(c) == (find_from(s, seq![c], 0) is Some),
{
    crate::text::lemma_find_from_none(s, seq![c], 0);
    lemma_find_from_bounds(s, seq![c], 0);
    if s.contains(c) {
        let w = choose|w: int| 0 <= w < s.len() && s[w] == c;
        crate::text::lemma_occurs_char(s, c, w);
    }
    if let Some(k) = find_from(s, seq![c], 0) {
        crate::text::lemma_occurs_char(s, c, k);
    }
}

proof fn lemma_trim_start_suffix(s: Seq<char>)
    ensures
        trim_start(s).len() <= s.len(),
        trim_start(s) == s.subrange(s.len() - trim_start(s).len(), s.len() as int),
        forall|j: int| 0 <= j < s.len() - trim_start(s).len() ==> is_white_space(#[trigger] s[j]),
    decreases s.len(),
{
    if s.len() > 0 && is_white_space(s[0]) {
        let d = s.drop_first();
        lemma_trim_start_suffix(d);
        let n = trim_start(d).len();
        assert(d.subrange(d.len() - n, d.len() as int) =~= s.subrange(
            s.len() - n,
            s.len() as int,
        ));
        assert forall|j: int| 0 <= j < s.len() - n implies is_white_space(#[trigger] s[j]) by {
            if j > 0 {
                assert(s[j] == d[j - 1]);
            }
        }
    } else {
        assert(s.subrange(0, s.len() as int) =~= s);
    }
}

/// A text that ends with an element type still does once trimmed.
proof fn lemma_dtype_survives_trim(s: Seq<char>)
    requires
        ends_with_dtype(s),
    ensures
        ends_with_dtype(trim(s)),
{
    reveal_strlit("f32");
    reveal_strlit("f16");
    reveal_strlit("i32");
    reveal_strlit("i64");
    lemma_trim_start_suffix(s);
    let t = trim_start(s);
    let n = t.len();
    let l = s.len();
    assert(s[l - 3] == s.subrange(l - 3, l as int)[0]);
    assert(s[l - 1] == s.subrange(l - 3, l as int)[2]);
    assert(!is_white_space(s[l - 3]));
    assert(n >= 3);
    assert(t.last() == s[l - 1]);
    assert(trim_end(t) == t);
    assert(t.subrange(n - 3, n as int) =~= s.subrange(l - 3, l as int));
}

/// The dimensions of a shape are its readable `x`-separated pieces, trimmed,
/// that do not end with an element type, in order, or `[1]` where there is
/// none; so a shape is never empty.
pub proof fn law_shape_dims_are_read_pieces(shape: Seq<char>)
    ensures
        shape_dims(shape) == (if dims_from(shape, 0).len() == 0 {
            seq![1usize]
        } else {
            dims_from(shape, 0)
        }),
        shape_dims(shape).len() >= 1,
{
    if !shape.contains('x') && ends_with_dtype(shape) {
        lemma_contains_char(shape, 'x');
        assert(shape.subrange(0, shape.len() as int) =~= shape);
        lemma_dtype_survives_trim(shape);
        assert(dims_from(shape, 0) == dim_of_piece(shape));
    }
}

/// Each `x`-separated piece `s[a..k]` of a shape gives exactly one dimension,
/// its own value, where, trimmed, it reads as a `usize` and does not end with
/// an element type, whatever that value is (a `1` too), and no dimension
/// otherwise; the pieces after it follow in order.
pub proof fn law_shape_piece_gives_its_value(s: Seq<char>, a: int, k: int)
    requires
        0 <= a <= k <= s.len(),
        forall|j: int| a <= j < k ==> s[j] != 'x',
        k == s.len() || s[k] == 'x',
    ensures
        dims_from(s, a) == (if !ends_with_dtype(trim(s.subrange(a, k))) && parse_usize_spec(
            trim(s.subrange(a, k)),
        ) is Some {
            seq![parse_usize_spec(trim(s.subrange(a, k)))->0]
        } else {
            Seq::<usize>::empty()
        }) + (if k < s.len() {
            dims_from(s, k + 1)
        } else {
            Seq::<usize>::empty()
        }),
{
    lemma_find_from_bounds(s, seq!['x'], a);
    if k < s.len() {
        crate::text::lemma_occurs_char(s, 'x', k);
    }
    match find_from(s, seq!['x'], a) {
        Some(k2) => {
            crate::text::lemma_occurs_char(s, 'x', k2);
            if k2 < k {
                assert(s[k2] != 'x');
            }
            if k < k2 {
                assert(!crate::text::occurs_at(s, seq!['x'], k));
            }
            assert(k2 == k);
        },
        None => {
            crate::text::lemma_find_from_none(s, seq!['x'], a);
            if k < s.len() {
                assert(!crate::text::occurs_at(s, seq!['x'], k));
            }
            assert(s.subrange(a, s.len() as int) == s.subrange(a, k));
            assert(dim_of_piece(s.subrange(a, k)) + Seq::<usize>::empty() =~= dim_of_piece(
                s.subrange(a, k),
            ));
        },
    }
}

/// The shape of the first `tensor<..>` type of a line, or `None` where reading
/// it panics: there is none, or it is not closed.
pub fn try_parse_output_shape_from_op(op_line: &str) -> (r: Option<Vec<usize>>)
    ensures
        match output_shape_spec(op_line@) {
            None => r is None,
            Some(d) => r matches Some(x) && x@ == d,
        },
{
    proof {
        reveal_strlit("tensor<");
    }
    let cs = chars_of(op_line);
    let pat = chars_of("tensor<");
    let tensor_start = find_from_exec(&cs, &pat, 0)?;
    let tensor_end = match find_char_from(&cs, '>', tensor_start) {
        Some(pos) => pos + 1,
        None => cs.len(),
    };
    let tensor_type = slice_chars(&cs, tensor_start, tensor_end);
    try_parse_tensor_shape(&tensor_type)
}

/// The shape of the first `tensor<..>` type of a line.
pub fn parse_output_shape_from_op(op_line: &str) -> (r: Vec<usize>)
    requires
        output_shape_spec(op_line@) is Some,
    ensures
        r@ == output_shape_spec(op_line@)->0,
        r@.len() > 0,
{
    proof {
        reveal_strlit("tensor<");
    }
    let cs = chars_of(op_line);
    let pat = chars_of("tensor<");
    let tensor_start = find_from_exec(&cs, &pat, 0).unwrap();
    let tensor_end = match find_char_from(&cs, '>', tensor_start) {
        Some(pos) => pos + 1,
        None => cs.len(),
    };
    let tensor_type = slice_chars(&cs, tensor_start, tensor_end);
    parse_tensor_shape(&tensor_type)
}

/// One argument of a function: its name and the shape of its tensor type.
#[derive(Debug, PartialEq)]
pub struct FuncArg {
    pub name: String,
    pub shape: Vec<usize>,
}

impl View for FuncArg {
    type V = (Seq<char>, Seq<usize>);

    open spec fn view(&self) -> (Seq<char>, Seq<usize>) {
        (self.name@, self.shape@)
    }
}

pub open spec fn args_view(v: Seq<FuncArg>) -> Seq<(Seq<char>, Seq<usize>)> {
    v.map_values(|a: FuncArg| a@)
}

/// The argument written in one comma-separated piece `p` of an argument list:
/// `name: type`, where the trimmed piece holds exactly one `:`, with the name
/// trimmed and the shape of the trimmed type. `Some(None)` where the piece is
/// not of that form; `None` where the type has no readable shape (reading panics).
pub open spec fn arg_of_piece(p: Seq<char>) -> Option<Option<(Seq<char>, Seq<usize>)>> {
    let t = trim(p);
    match find(t, seq![':']) {
        None => Some(None),
        Some(c) => if find_from(t, seq![':'], c + 1) is Some {
            Some(None)
        } else {
            match tensor_shape_spec(trim(t.subrange(c + 1, t.len() as int))) {
                None => None,
                Some(d) => Some(Some((trim(t.subrange(0, c)), d))),
            }
        },
    }
}

/// The comma-separated piece of `s` from `a`, up to the first comma or `end`.
pub open spec fn piece_end(s: Seq<char>, a: int, end: int) -> int {
    match find_from(s, seq![','], a) {
        Some(k) => if k < end {
            k
        } else {
            end
        },
        None => end,
    }
}

/// The arguments written in the comma-separated pieces of `s[a..end]`;
/// `None` where reading one panics.
pub open spec fn args_from(s: Seq<char>, a: int, end: int) -> Option<
    Seq<(Seq<char>, Seq<usize>)>,
>
    decreases end + 1 - a,
{
    if a < 0 || a > end || end > s.len() {
        Some(Seq::empty())
    } else {
        let k = piece_end(s, a, end);
        proof {
            lemma_find_from_bounds(s, seq![','], a);
        }
        match arg_of_piece(s.subrange(a, k)) {
            None => None,
            Some(o) => {
                let here = match o {
                    Some(x) => seq![x],
                    None => Seq::empty(),
                };
                if k < end {
                    match args_from(s, k + 1, end) {
                        None => None,
                        Some(rest) => Some(here + rest),
                    }
                } else {
                    Some(here)
                }
            },
        }
    }
}

/// The arguments of a `func.func` line: those between its first `(` and its
/// first `)`. None where there is no such pair; `None` where the `)` comes
/// first or an argument type has no readable shape (reading panics).
pub open spec fn func_args_spec(line: Seq<char>) -> Option<Seq<(Seq<char>, Seq<usize>)>> {
    match (find(line, seq!['(']), find(line, seq![')'])) {
        (Some(a), Some(b)) => if a < b {
            args_from(line, a + 1, b)
        } else {
            None
        },
        _ => Some(Seq::empty()),
    }
}

/// The argument in the piece `cs[lo0..hi0]` of `line`.
fn read_arg(line: &str, cs: &Vec<char>, lo0: usize, hi0: usize) -> (r: Option<Option<FuncArg>>)
    requires
        cs@ == line@,
        lo0 <= hi0 <= cs.len(),
    ensures
        match arg_of_piece(cs@.subrange(lo0 as int, hi0 as int)) {
            None => r is None,
            Some(None) => r matches Some(None),
            Some(Some(a)) => r matches Some(Some(x)) && x@ == a,
        },
{
    let (lo, hi) = trim_range(cs, lo0, hi0);
    let t = slice_chars(cs, lo, hi);
    let c = match find_char_from(&t, ':', 0) {
        None => return Some(None),
        Some(c) => c,
    };
    if find_char_from(&t, ':', c + 1).is_some() {
        return Some(None);
    }
    assert(t@.subrange(0, c as int) =~= cs@.subrange(lo as int, lo + c));
    assert(t@.subrange(c + 1, t@.len() as int) =~= cs@.subrange(lo + c + 1, hi as int));
    let (nlo, nhi) = trim_range(cs, lo, lo + c);
    let name = substring(line, nlo, nhi);
    let (slo, shi) = trim_range(cs, lo + c + 1, hi);
    let shape_str = slice_chars(cs, slo, shi);
    let shape = match try_parse_tensor_shape(&shape_str) {
        Some(d) => d,
        None => return None,
    };
    Some(Some(FuncArg { name, shape }))
}

/// The arguments of a `func.func` line, or `None` where reading them panics.
pub fn try_parse_func_args_line(line: &str) -> (r: Option<Vec<FuncArg>>)
    ensures
        match func_args_spec(line@) {
            None => r is None,
            Some(v) => r matches Some(x) && args_view(x@) == v,
        },
{
    let cs = chars_of(line);
    let a = match find_char_from(&cs, '(', 0) {
        Some(a) => a,
        None => return Some(Vec::new()),
    };
    let b = match find_char_from(&cs, ')', 0) {
        Some(b) => b,
        None => return Some(Vec::new()),
    };
    if b < a + 1 {
        return None;
    }
    let mut out: Vec<FuncArg> = Vec::new();
    let mut pos = a + 1;
    assert(func_args_spec(line@) == args_from(cs@, a + 1, b as int));
    assert(args_view(out@) =~= Seq::<(Seq<char>, Seq<usize>)>::empty());
    loop
        invariant_except_break
            a + 1 <= pos <= b,
            args_from(cs@, a + 1, b as int) == match args_from(cs@, pos as int, b as int) {
                Some(rest) => Some(args_view(out@) + rest),
                None => None,
            },
        invariant
            b < cs.len(),
            cs@ == line@,
            func_args_spec(line@) == args_from(cs@, a + 1, b as int),
        ensures
            args_from(cs@, a + 1, b as int) == Some(args_view(out@)),
        decreases b - pos,
    {
        let k = match find_char_from(&cs, ',', pos) {
            Some(k) => if k < b {
                k
            } else {
                b
            },
            None => b,
        };
        proof {
            lemma_find_from_bounds(cs@, seq![','], pos as int);
        }
        let ghost before = args_view(out@);
        match read_arg(line, &cs, pos, k) {
            None => return None,
            Some(Some(arg)) => {
                out.push(arg);
                assert(args_view(out@) =~= before + seq![arg@]);
            },
            Some(None) => {
                assert(args_view(out@) =~= before + Seq::empty());
            },
        }
        if k < b {
            pos = k + 1;
        } else {
            break ;
        }
    }
    Some(out)
}

/// The arguments of a `func.func` line: each `name: tensor<..>` between its
/// first `(` and its first `)`.
pub fn parse_func_args_line(line: &str) -> (r: Vec<FuncArg>)
    requires
        func_args_spec(line@) is Some,
    ensures
        args_view(r@) == func_args_spec(line@)->0,
{
    try_parse_func_args_line(line).unwrap()
}

} // verus!
