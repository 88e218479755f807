//! The attributes of a `stablehlo.convolution` line, which are read from the
//! text of the line rather than from its tokens.
use vstd::prelude::*;

use crate::ast::{
    AttrView,
    strings_view,
};
use crate::lexer::{
    CharClass,
    lemma_run_end,
    run_end,
};
use crate::parser::{
    ParseError,
    ParseErrorView,
};
use crate::text::{
    all_digits,
    char_is_ascii_digit,
    chars_of,
    decimal_upto,
    decimal_value,
    find,
    find_char_from,
    find_from,
    is_ascii_digit,
    is_white_space,
    lemma_find_from_bounds,
    lemma_occurs_char,
    lemma_trim_ends,
    opt_int,
    parse_usize,
    parse_usize_spec,
    substring,
    trim,
    trim_range,
};

verus! {

broadcast use vstd::string::group_string_axioms;

/// The list between the first `[` at or after `start` and the first `]` after
/// it, trimmed, and the index after that `]`.
pub open spec fn bracket_list_spec(s: Seq<char>, start: int) -> Result<
    (Seq<char>, int),
    ParseErrorView,
> {
    match find_from(s, seq!['['], start) {
        None => Err(ParseErrorView::UnclosedBracketList),
        Some(q) => match find_from(s, seq![']'], q + 1) {
            None => Err(ParseErrorView::UnclosedBracketList),
            Some(k) => Ok((trim(s.subrange(q + 1, k)), k + 1)),
        },
    }
}

/// The first `[` at or after `from`.
pub open spec fn next_bracket_spec(s: Seq<char>, from: int) -> Result<int, ParseErrorView> {
    match find_from(s, seq!['['], from) {
        None => Err(ParseErrorView::ExpectedBracket),
        Some(k) => Ok(k),
    }
}

/// The index from `i` on where the braces opened since `i`, with `depth` open
/// before it, all close; counting `{` up and `}` down.
pub open spec fn brace_match(s: Seq<char>, i: int, depth: int) -> Option<int>
    decreases s.len() - i,
{
    if i < 0 || i >= s.len() {
        None
    } else if s[i] == '{' {
        brace_match(s, i + 1, depth + 1)
    } else if s[i] == '}' {
        if depth - 1 == 0 {
            Some(i)
        } else {
            brace_match(s, i + 1, depth - 1)
        }
    } else {
        brace_match(s, i + 1, depth)
    }
}

pub proof fn lemma_brace_match_bounds(s: Seq<char>, i: int, depth: int)
    ensures
        brace_match(s, i, depth) matches Some(c) ==> i <= c < s.len() && s[c] == '}',
    decreases s.len() - i,
{
    if 0 <= i < s.len() {
        if s[i] == '{' {
            lemma_brace_match_bounds(s, i + 1, depth + 1);
        } else if s[i] == '}' {
            lemma_brace_match_bounds(s, i + 1, depth - 1);
        } else {
            lemma_brace_match_bounds(s, i + 1, depth);
        }
    }
}

/// A piece of a comma-separated list, trimmed, kept where it is not empty.
pub open spec fn keep_tag(p: Seq<char>) -> Seq<Seq<char>> {
    if trim(p).len() > 0 {
        seq![trim(p)]
    } else {
        Seq::empty()
    }
}

/// The non-empty trimmed pieces of `s` between commas, from index `a` on.
pub open spec fn tags_from(s: Seq<char>, a: int) -> Seq<Seq<char>>
    decreases s.len() + 1 - a,
{
    if a < 0 || a > s.len() {
        Seq::empty()
    } else {
        match find_from(s, seq![','], a) {
            None => keep_tag(s.subrange(a, s.len() as int)),
            Some(k) => {
                proof {
                    lemma_find_from_bounds(s, seq![','], a);
                }
                keep_tag(s.subrange(a, k)) + tags_from(s, k + 1)
            },
        }
    }
}

/// A tag that `split_tags` gives: not empty, and neither starting nor ending
/// with whitespace.
pub open spec fn clean_tag(t: Seq<char>) -> bool {
    t.len() > 0 && !is_white_space(t[0]) && !is_white_space(t.last())
}

proof fn lemma_tags_clean(s: Seq<char>, a: int)
    ensures
        forall|k: int| 0 <= k < tags_from(s, a).len() ==> clean_tag(#[trigger] tags_from(s, a)[k]),
    decreases s.len() + 1 - a,
{
    if 0 <= a <= s.len() {
        match find_from(s, seq![','], a) {
            None => {
                lemma_trim_ends(s.subrange(a, s.len() as int));
            },
            Some(k) => {
                lemma_find_from_bounds(s, seq![','], a);
                lemma_trim_ends(s.subrange(a, k));
                lemma_tags_clean(s, k + 1);
                let here = keep_tag(s.subrange(a, k));
                let rest = tags_from(s, k + 1);
                assert forall|m: int| 0 <= m < tags_from(s, a).len() implies clean_tag(
                    #[trigger] tags_from(s, a)[m],
                ) by {
                    if m >= here.len() {
                        assert(tags_from(s, a)[m] == rest[m - here.len()]);
                    }
                }
            },
        }
    }
}

/// Every tag of a comma-separated list is not empty and has no whitespace
/// around it.
pub proof fn law_tags_are_clean(s: Seq<char>)
    ensures
        forall|k: int| 0 <= k < split_tags_spec(s).len() ==> clean_tag(#[trigger] split_tags_spec(s)[k]),
{
    lemma_tags_clean(s, 0);
}

/// The non-empty trimmed pieces of `s` between commas.
pub open spec fn split_tags_spec(s: Seq<char>) -> Seq<Seq<char>> {
    tags_from(s, 0)
}

/// The number that a run of digits stands for, where it fits in a `usize`.
pub open spec fn digits_number(num: Seq<char>) -> Option<usize> {
    if decimal_value(num) <= usize::MAX {
        Some(decimal_value(num) as usize)
    } else {
        None
    }
}

/// An integer list written in text, from index `i` on, with the digits read
/// so far in `num` and the numbers so far in `out`: digits, `,` and spaces up
/// to `]`. `None` where a number does not fit in a `usize` (reading it panics).
pub open spec fn intvec_text_spec(s: Seq<char>, i: int, num: Seq<char>, out: Seq<usize>) -> Option<
    Result<(Seq<usize>, int), ParseErrorView>,
>
    decreases s.len() - i,
{
    if i < 0 || i >= s.len() {
        Some(Err(ParseErrorView::BadIntVec))
    } else if is_ascii_digit(s[i]) {
        intvec_text_spec(s, i + 1, num.push(s[i]), out)
    } else if s[i] == ',' {
        if num.len() > 0 {
            match digits_number(num) {
                None => None,
                Some(v) => intvec_text_spec(s, i + 1, Seq::empty(), out.push(v)),
            }
        } else {
            intvec_text_spec(s, i + 1, num, out)
        }
    } else if s[i] == ']' {
        if num.len() > 0 {
            match digits_number(num) {
                None => None,
                Some(v) => Some(Ok((out.push(v), i + 1))),
            }
        } else {
            Some(Ok((out, i + 1)))
        }
    } else if s[i] == ' ' {
        intvec_text_spec(s, i + 1, num, out)
    } else {
        Some(Err(ParseErrorView::BadIntVec))
    }
}

/// An integer list written in text, starting with its `[`.
pub open spec fn bracket_intvec_spec(s: Seq<char>) -> Option<
    Result<(Seq<usize>, int), ParseErrorView>,
> {
    intvec_text_spec(s, 1, Seq::empty(), Seq::empty())
}

/// Whether `c` may stand in an integer list written in text: a digit, `,` or
/// a space.
pub open spec fn intvec_char(c: char) -> bool {
    is_ascii_digit(c) || c == ',' || c == ' '
}

/// The first index at or after `i` whose character may not stand in an
/// integer list (the end of the text where there is none).
pub open spec fn intvec_text_end(s: Seq<char>, i: int) -> int
    decreases s.len() - i,
{
    if 0 <= i < s.len() && intvec_char(s[i]) {
        intvec_text_end(s, i + 1)
    } else {
        i
    }
}

/// The digit groups of `s[i..hi]` between commas, spaces left out and empty
/// groups skipped; `num` holds the digits already read of the first group.
pub open spec fn digit_groups(s: Seq<char>, i: int, hi: int, num: Seq<char>) -> Seq<Seq<char>>
    decreases hi - i,
{
    if i < 0 || i >= hi || i >= s.len() {
        if num.len() > 0 {
            seq![num]
        } else {
            Seq::empty()
        }
    } else if s[i] == ',' {
        (if num.len() > 0 {
            seq![num]
        } else {
            Seq::empty()
        }) + digit_groups(s, i + 1, hi, Seq::empty())
    } else if is_ascii_digit(s[i]) {
        digit_groups(s, i + 1, hi, num.push(s[i]))
    } else {
        digit_groups(s, i + 1, hi, num)
    }
}

/// The numbers that the digit groups `g` stand for; `None` where one does not
/// fit in a `usize`.
pub open spec fn group_numbers(g: Seq<Seq<char>>) -> Option<Seq<usize>>
    decreases g.len(),
{
    if g.len() == 0 {
        Some(Seq::empty())
    } else {
        match digits_number(g[0]) {
            None => None,
            Some(v) => match group_numbers(g.drop_first()) {
                None => None,
                Some(r) => Some(seq![v] + r),
            },
        }
    }
}

proof fn lemma_intvec_text_end_bounds(s: Seq<char>, i: int)
    ensures
        i <= intvec_text_end(s, i),
    decreases s.len() - i,
{
    if 0 <= i < s.len() && intvec_char(s[i]) {
        lemma_intvec_text_end_bounds(s, i + 1);
    }
}

proof fn lemma_group_numbers_cons(x: Seq<char>, rest: Seq<Seq<char>>)
    ensures
        group_numbers(seq![x] + rest) == match digits_number(x) {
            None => None,
            Some(v) => match group_numbers(rest) {
                None => None,
                Some(r) => Some(seq![v] + r),
            },
        },
{
    assert((seq![x] + rest).drop_first() =~= rest);
    assert((seq![x] + rest)[0] == x);
}

proof fn lemma_intvec_text_groups(s: Seq<char>, i: int, num: Seq<char>, out: Seq<usize>)
    requires
        0 <= i,
        forall|k: int| 0 <= k < num.len() ==> is_ascii_digit(#[trigger] num[k]),
    ensures
        ({
            let c = intvec_text_end(s, i);
            let r = intvec_text_spec(s, i, num, out);
            &&& c < s.len() && s[c] == ']' ==> r == match group_numbers(
                digit_groups(s, i, c, num),
            ) {
                None => None::<Result<(Seq<usize>, int), ParseErrorView>>,
                Some(vs) => Some(Ok((out + vs, c + 1))),
            }
            &&& !(c < s.len() && s[c] == ']') ==> !(r matches Some(Ok(_)))
        }),
    decreases s.len() - i,
{
    let c = intvec_text_end(s, i);
    lemma_intvec_text_end_bounds(s, i);
    if i < s.len() && intvec_char(s[i]) {
        lemma_intvec_text_end_bounds(s, i + 1);
        if is_ascii_digit(s[i]) {
            let n2 = num.push(s[i]);
            assert forall|k: int| 0 <= k < n2.len() implies is_ascii_digit(#[trigger] n2[k]) by {
                if k < num.len() {
                    assert(n2[k] == num[k]);
                }
            }
            lemma_intvec_text_groups(s, i + 1, n2, out);
        } else if s[i] == ',' {
            lemma_intvec_text_groups(s, i + 1, Seq::empty(), out);
            if num.len() > 0 {
                lemma_group_numbers_cons(num, digit_groups(s, i + 1, c, Seq::empty()));
                if let Some(v) = digits_number(num) {
                    lemma_intvec_text_groups(s, i + 1, Seq::empty(), out.push(v));
                    if let Some(vs) = group_numbers(digit_groups(s, i + 1, c, Seq::empty())) {
                        assert(out.push(v) + vs =~= out + (seq![v] + vs));
                    }
                }
            } else {
                assert(num =~= Seq::<char>::empty());
                assert(Seq::<Seq<char>>::empty() + digit_groups(s, i + 1, c, Seq::empty())
                    =~= digit_groups(s, i + 1, c, Seq::empty()));
            }
        } else {
            lemma_intvec_text_groups(s, i + 1, num, out);
        }
    } else if i < s.len() && s[i] == ']' {
        if num.len() > 0 {
            lemma_group_numbers_cons(num, Seq::empty());
            assert(seq![num] + Seq::<Seq<char>>::empty() =~= seq![num]);
            if let Some(v) = digits_number(num) {
                assert(out + (seq![v] + Seq::<usize>::empty()) =~= out.push(v));
            }
        } else {
            assert(out + Seq::<usize>::empty() =~= out);
        }
    }
}

/// An integer list written in text reads, from its first character on, the
/// digits, commas and spaces up to its `]`: where that `]` is there, the result
/// is the comma-separated digit groups between (spaces left out, empty groups
/// skipped) as numbers, and the index after the `]`, or `None` where a number
/// does not fit in a `usize`; where the first other character is not `]`, or
/// there is none, it never succeeds.
pub proof fn law_bracket_intvec_groups(s: Seq<char>)
    ensures
        ({
            let c = intvec_text_end(s, 1);
            let r = bracket_intvec_spec(s);
            &&& c < s.len() && s[c] == ']' ==> r == match group_numbers(
                digit_groups(s, 1, c, Seq::empty()),
            ) {
                None => None::<Result<(Seq<usize>, int), ParseErrorView>>,
                Some(vs) => Some(Ok((vs, c + 1))),
            }
            &&& (r matches Some(Ok(_))) <==> c < s.len() && s[c] == ']' && group_numbers(
                digit_groups(s, 1, c, Seq::empty()),
            ) is Some
            &&& (r matches Some(Err(_))) ==> !(c < s.len() && s[c] == ']')
        }),
{
    lemma_intvec_text_groups(s, 1, Seq::empty(), Seq::empty());
    if let Some(vs) = group_numbers(digit_groups(s, 1, intvec_text_end(s, 1), Seq::empty())) {
        assert(Seq::<usize>::empty() + vs =~= vs);
    }
}

/// The first `[` or `]` at or after `i`.
pub open spec fn first_bracket(s: Seq<char>, i: int) -> Option<int>
    decreases s.len() - i,
{
    if i < 0 || i >= s.len() {
        None
    } else if s[i] == '[' || s[i] == ']' {
        Some(i)
    } else {
        first_bracket(s, i + 1)
    }
}

/// The digits of `seg` before its first comma, and those after it.
pub open spec fn pad_digits(seg: Seq<char>) -> (Seq<char>, Seq<char>)
    decreases seg.len(),
{
    if seg.len() == 0 {
        (Seq::empty(), Seq::empty())
    } else {
        let (a, b) = pad_digits(seg.drop_last());
        let c = seg.last();
        if !is_ascii_digit(c) {
            (a, b)
        } else if seg.drop_last().contains(',') {
            (a, b.push(c))
        } else {
            (a.push(c), b)
        }
    }
}

/// The number written by `ds`, or 0 where there is none or it does not fit.
pub open spec fn number_or_zero(ds: Seq<char>) -> usize {
    if ds.len() > 0 && decimal_value(ds) <= usize::MAX {
        decimal_value(ds) as usize
    } else {
        0
    }
}

/// The pair of paddings that the text between `[` and `]` stands for.
pub open spec fn pad_pair(seg: Seq<char>) -> (usize, usize) {
    (number_or_zero(pad_digits(seg).0), number_or_zero(pad_digits(seg).1))
}

/// The padding pairs read from `s`: only the first `[lo, hi]` pair is read,
/// and nothing where a `]` comes before any `[`. `None` where a `[` has no `]`
/// after it (reading panics).
pub open spec fn pad_pairs_spec(s: Seq<char>) -> Option<Seq<(usize, usize)>> {
    match first_bracket(s, 0) {
        None => Some(Seq::empty()),
        Some(q) => if s[q] == ']' {
            Some(Seq::empty())
        } else {
            match find_from(s, seq![']'], q + 1) {
                None => None,
                Some(k) => Some(seq![pad_pair(s.subrange(q + 1, k))]),
            }
        },
    }
}

/// The first digit at or after `i` (the end where there is none).
pub open spec fn first_digit(s: Seq<char>, i: int) -> int
    decreases s.len() - i,
{
    if i < 0 || i >= s.len() || is_ascii_digit(s[i]) {
        i
    } else {
        first_digit(s, i + 1)
    }
}

/// The first run of digits in `s` read as a `usize`, and the index after it;
/// `None` where there is no digit or the number does not fit.
pub open spec fn trailing_int_spec(s: Seq<char>) -> Option<(usize, int)> {
    let d0 = first_digit(s, 0);
    let d1 = run_end(s, d0, CharClass::Digit);
    if d0 < d1 {
        match parse_usize_spec(s.subrange(d0, d1)) {
            Some(v) => Some((v, d1)),
            None => None,
        }
    } else {
        None
    }
}

/// The `dim_numbers = [..]x[..]->[..]` attribute, where the line has one.
pub open spec fn dim_numbers_spec(s: Seq<char>) -> Result<Option<AttrView>, ParseErrorView> {
    match find(s, "dim_numbers"@) {
        None => Ok(None),
        Some(idx) => match find_from(s, seq!['['], idx) {
            None => Ok(None),
            Some(start) => match bracket_list_spec(s, start) {
                Err(e) => Err(e),
                Ok((a, p1)) => match find_from(s, seq!['x'], p1) {
                    None => Err(ParseErrorView::DimNumbersMissingX),
                    Some(x_pos) => match next_bracket_spec(s, x_pos) {
                        Err(e) => Err(e),
                        Ok(nb) => match bracket_list_spec(s, nb) {
                            Err(e) => Err(e),
                            Ok((b, p2)) => match find_from(s, "->"@, p2) {
                                None => Err(ParseErrorView::DimNumbersMissingArrow),
                                Some(ap) => match next_bracket_spec(s, ap) {
                                    Err(e) => Err(e),
                                    Ok(nb2) => match bracket_list_spec(s, nb2) {
                                        Err(e) => Err(e),
                                        Ok((c, _)) => Ok(
                                            Some(
                                                AttrView::DimNumbers {
                                                    input: split_tags_spec(a),
                                                    kernel: split_tags_spec(b),
                                                    output: split_tags_spec(c),
                                                },
                                            ),
                                        ),
                                    },
                                },
                            },
                        },
                    },
                },
            },
        },
    }
}

/// Where the three lists of `dim_numbers` stand in the line `s`: the input
/// list `s[q1..=k1]`, an `x` at `xp`, the kernel list `s[q2..=k2]`, the first
/// `->` after it at `ap`, and the output list `s[q3..=k3]`, which is the first
/// `[` after that `->` up to the first `]` after it; each list holds the tags
/// given.
pub open spec fn dim_numbers_layout(
    s: Seq<char>,
    q1: int,
    k1: int,
    xp: int,
    q2: int,
    k2: int,
    ap: int,
    q3: int,
    k3: int,
    input: Seq<Seq<char>>,
    kernel: Seq<Seq<char>>,
    output: Seq<Seq<char>>,
) -> bool {
    &&& 0 <= q1 < k1 < xp < q2 < k2 < ap
    &&& ap + 2 <= q3 < k3 < s.len()
    &&& s[q1] == '[' && s[k1] == ']' && s[xp] == 'x' && s[q2] == '[' && s[k2] == ']'
    &&& s[ap] == '-' && s[ap + 1] == '>' && s[q3] == '[' && s[k3] == ']'
    &&& forall|j: int| q1 < j < k1 ==> s[j] != ']'
    &&& forall|j: int| q2 < j < k2 ==> s[j] != ']'
    &&& forall|j: int| q3 < j < k3 ==> s[j] != ']'
    &&& forall|j: int| ap <= j < q3 ==> s[j] != '['
    &&& forall|j: int| k2 < j < ap ==> !(#[trigger] s[j] == '-' && s[j + 1] == '>')
    &&& input == split_tags_spec(trim(s.subrange(q1 + 1, k1)))
    &&& kernel == split_tags_spec(trim(s.subrange(q2 + 1, k2)))
    &&& output == split_tags_spec(trim(s.subrange(q3 + 1, k3)))
}

proof fn lemma_first_char(s: Seq<char>, c: char, from: int)
    requires
        0 <= from,
    ensures
        find_from(s, seq![c], from) matches Some(k) ==> from <= k < s.len() && s[k] == c
            && forall|j: int| from <= j < k ==> s[j] != c,
{
    lemma_find_from_bounds(s, seq![c], from);
    if let Some(k) = find_from(s, seq![c], from) {
        lemma_occurs_char(s, c, k);
        assert forall|j: int| from <= j < k implies s[j] != c by {
            lemma_occurs_char(s, c, j);
        }
    }
}

/// The `dim_numbers` of a line are its three bracket lists in order: the
/// input list, the kernel list after an `x`, and the output list after the
/// first `->` that follows the kernel list, each split at commas into trimmed
/// tags.
pub proof fn law_dim_numbers_lists(s: Seq<char>)
    ensures
        dim_numbers_spec(s) matches Ok(Some(AttrView::DimNumbers { input, kernel, output }))
            ==> exists|q1: int, k1: int, xp: int, q2: int, k2: int, ap: int, q3: int, k3: int|
            #[trigger] dim_numbers_layout(s, q1, k1, xp, q2, k2, ap, q3, k3, input, kernel, output),
{
    reveal_strlit("->");
    reveal_strlit("dim_numbers");
    if let Ok(Some(AttrView::DimNumbers { input, kernel, output })) = dim_numbers_spec(s) {
        let idx = find(s, "dim_numbers"@)->0;
        lemma_find_from_bounds(s, "dim_numbers"@, 0);
        let start = find_from(s, seq!['['], idx)->0;
        lemma_first_char(s, '[', idx);
        let q1 = find_from(s, seq!['['], start)->0;
        lemma_first_char(s, '[', start);
        let k1 = find_from(s, seq![']'], q1 + 1)->0;
        lemma_first_char(s, ']', q1 + 1);
        let xp = find_from(s, seq!['x'], k1 + 1)->0;
        lemma_first_char(s, 'x', k1 + 1);
        let q2 = find_from(s, seq!['['], xp)->0;
        lemma_first_char(s, '[', xp);
        let q2b = find_from(s, seq!['['], q2)->0;
        lemma_first_char(s, '[', q2);
        assert(q2b == q2);
        let k2 = find_from(s, seq![']'], q2 + 1)->0;
        lemma_first_char(s, ']', q2 + 1);
        let ap = find_from(s, "->"@, k2 + 1)->0;
        lemma_find_from_bounds(s, "->"@, k2 + 1);
        assert(s.subrange(ap, ap + 2) == "->"@);
        assert(s[ap] == s.subrange(ap, ap + 2)[0]);
        assert(s[ap + 1] == s.subrange(ap, ap + 2)[1]);
        assert forall|j: int| k2 < j < ap implies !(#[trigger] s[j] == '-' && s[j + 1] == '>') by {
            if s[j] == '-' && s[j + 1] == '>' {
                assert(s.subrange(j, j + 2) =~= "->"@);
                assert(crate::text::occurs_at(s, "->"@, j));
            }
        }
        let q3 = find_from(s, seq!['['], ap)->0;
        lemma_first_char(s, '[', ap);
        let q3b = find_from(s, seq!['['], q3)->0;
        lemma_first_char(s, '[', q3);
        assert(q3b == q3);
        let k3 = find_from(s, seq![']'], q3 + 1)->0;
        lemma_first_char(s, ']', q3 + 1);
        assert(dim_numbers_layout(s, q1, k1, xp, q2, k2, ap, q3, k3, input, kernel, output));
    }
}

/// The text inside the braces of `window = {..}`, where the line has one.
pub open spec fn window_body_spec(s: Seq<char>) -> Option<Seq<char>> {
    match find(s, "window"@) {
        None => None,
        Some(wi) => match find_from(s, seq!['{'], wi) {
            None => None,
            Some(open) => match brace_match(s, open, 0) {
                None => None,
                Some(close) => Some(s.subrange(open + 1, close)),
            },
        },
    }
}

/// `m` with `window_pad` read from the window body; `None` where reading panics.
pub open spec fn pad_step(body: Seq<char>, m: Map<Seq<char>, AttrView>) -> Option<
    Map<Seq<char>, AttrView>,
> {
    match find(body, "pad"@) {
        None => Some(m),
        Some(pi) => match find_from(body, seq!['['], pi) {
            None => Some(m),
            Some(lb) => match pad_pairs_spec(body.subrange(lb, body.len() as int)) {
                None => None,
                Some(p) => Some(m.insert("window_pad"@, AttrView::PadPairs(p))),
            },
        },
    }
}

/// `m` with the integer list named `word` read from the window body;
/// `None` where reading panics.
pub open spec fn window_list_step(
    body: Seq<char>,
    word: Seq<char>,
    m: Map<Seq<char>, AttrView>,
) -> Option<Result<Map<Seq<char>, AttrView>, ParseErrorView>> {
    match find(body, word) {
        None => Some(Ok(m)),
        Some(wi) => match find_from(body, seq!['['], wi) {
            None => Some(Ok(m)),
            Some(lb) => match bracket_intvec_spec(body.subrange(lb, body.len() as int)) {
                None => None,
                Some(Err(e)) => Some(Err(e)),
                Some(Ok((v, _))) => Some(Ok(m.insert(word, AttrView::IntVec(v)))),
            },
        },
    }
}

/// `m` with the window attributes of the line; `None` where reading panics.
pub open spec fn window_spec(s: Seq<char>, m: Map<Seq<char>, AttrView>) -> Option<
    Result<Map<Seq<char>, AttrView>, ParseErrorView>,
> {
    match window_body_spec(s) {
        None => Some(Ok(m)),
        Some(body) => match pad_step(body, m) {
            None => None,
            Some(m1) => match window_list_step(body, "stride"@, m1) {
                None => None,
                Some(Err(e)) => Some(Err(e)),
                Some(Ok(m2)) => match window_list_step(body, "base_dilations"@, m2) {
                    None => None,
                    Some(Err(e)) => Some(Err(e)),
                    Some(Ok(m3)) => window_list_step(body, "window_dilations"@, m3),
                },
            },
        },
    }
}

/// `m` with the group count named `word`, read as the first number after it.
pub open spec fn group_count_step(s: Seq<char>, word: Seq<char>, m: Map<Seq<char>, AttrView>) -> Map<
    Seq<char>,
    AttrView,
> {
    match find(s, word) {
        None => m,
        Some(bi) => match trailing_int_spec(s.subrange(bi, s.len() as int)) {
            Some((v, _)) => m.insert(word, AttrView::Int((v as i64) as int)),
            None => m,
        },
    }
}

/// `m` with all convolution attributes of the line `s`; `None` where reading panics.
pub open spec fn conv_attrs_spec(s: Seq<char>, m: Map<Seq<char>, AttrView>) -> Option<
    Result<Map<Seq<char>, AttrView>, ParseErrorView>,
> {
    match dim_numbers_spec(s) {
        Err(e) => Some(Err(e)),
        Ok(d) => {
            let m1 = match d {
                Some(a) => m.insert("dim_numbers"@, a),
                None => m,
            };
            match window_spec(s, m1) {
                None => None,
                Some(Err(e)) => Some(Err(e)),
                Some(Ok(m2)) => Some(
                    Ok(
                        group_count_step(
                            s,
                            "feature_group_count"@,
                            group_count_step(s, "batch_group_count"@, m2),
                        ),
                    ),
                ),
            }
        },
    }
}

/// The attributes after reading `window_pad`, whatever the outcome: unchanged
/// where reading panics.
pub open spec fn pad_map(body: Seq<char>, m: Map<Seq<char>, AttrView>) -> Map<Seq<char>, AttrView> {
    match pad_step(body, m) {
        Some(m1) => m1,
        None => m,
    }
}

/// The attributes after reading the integer list named `word`, whatever the
/// outcome: unchanged where reading fails or panics.
pub open spec fn window_list_map(
    body: Seq<char>,
    word: Seq<char>,
    m: Map<Seq<char>, AttrView>,
) -> Map<Seq<char>, AttrView> {
    match window_list_step(body, word, m) {
        Some(Ok(m1)) => m1,
        _ => m,
    }
}

/// The attributes after reading the window, whatever the outcome: those read
/// before a failure stay.
pub open spec fn window_map(s: Seq<char>, m: Map<Seq<char>, AttrView>) -> Map<Seq<char>, AttrView> {
    match window_body_spec(s) {
        None => m,
        Some(body) => match pad_step(body, m) {
            None => m,
            Some(m1) => match window_list_step(body, "stride"@, m1) {
                Some(Ok(m2)) => match window_list_step(body, "base_dilations"@, m2) {
                    Some(Ok(m3)) => window_list_map(body, "window_dilations"@, m3),
                    _ => m2,
                },
                _ => m1,
            },
        },
    }
}

/// The attributes after reading all convolution attributes of the line `s`,
/// whatever the outcome: unchanged where `dim_numbers` cannot be read, and
/// otherwise those read before a failure.
pub open spec fn conv_attrs_map(s: Seq<char>, m: Map<Seq<char>, AttrView>) -> Map<
    Seq<char>,
    AttrView,
> {
    match dim_numbers_spec(s) {
        Err(_) => m,
        Ok(d) => {
            let m1 = match d {
                Some(a) => m.insert("dim_numbers"@, a),
                None => m,
            };
            match window_spec(s, m1) {
                Some(Ok(m2)) => group_count_step(
                    s,
                    "feature_group_count"@,
                    group_count_step(s, "batch_group_count"@, m2),
                ),
                _ => window_map(s, m1),
            }
        },
    }
}

/// The names of the attributes that a convolution line may set.
pub open spec fn conv_keys() -> Set<Seq<char>> {
    set![
        "dim_numbers"@,
        "window_pad"@,
        "stride"@,
        "base_dilations"@,
        "window_dilations"@,
        "batch_group_count"@,
        "feature_group_count"@,
    ]
}

/// `a` and `b` agree at every key outside `keys`.
pub open spec fn agree_outside(
    a: Map<Seq<char>, AttrView>,
    b: Map<Seq<char>, AttrView>,
    keys: Set<Seq<char>>,
) -> bool {
    forall|k: Seq<char>|
        !keys.contains(k) ==> (a.dom().contains(k) <==> b.dom().contains(k)) && (
        a.dom().contains(k) ==> a[k] == b[k])
}

proof fn lemma_agree_trans(
    a: Map<Seq<char>, AttrView>,
    b: Map<Seq<char>, AttrView>,
    c: Map<Seq<char>, AttrView>,
    keys: Set<Seq<char>>,
)
    requires
        agree_outside(a, b, keys),
        agree_outside(b, c, keys),
    ensures
        agree_outside(a, c, keys),
{
}

proof fn lemma_window_list_agrees(body: Seq<char>, word: Seq<char>, m: Map<Seq<char>, AttrView>)
    requires
        conv_keys().contains(word),
    ensures
        agree_outside(m, window_list_map(body, word, m), conv_keys()),
        window_list_step(body, word, m) matches Some(Ok(m1)) ==> agree_outside(
            m,
            m1,
            conv_keys(),
        ),
{
}

proof fn lemma_window_agrees(s: Seq<char>, m: Map<Seq<char>, AttrView>)
    ensures
        agree_outside(m, window_map(s, m), conv_keys()),
        window_spec(s, m) matches Some(Ok(m1)) ==> agree_outside(m, m1, conv_keys()),
{
    reveal_strlit("window_pad");
    reveal_strlit("stride");
    reveal_strlit("base_dilations");
    reveal_strlit("window_dilations");
    assert(conv_keys().contains("window_pad"@));
    assert(conv_keys().contains("stride"@));
    assert(conv_keys().contains("base_dilations"@));
    assert(conv_keys().contains("window_dilations"@));
    if let Some(body) = window_body_spec(s) {
        if let Some(m1) = pad_step(body, m) {
            lemma_window_list_agrees(body, "stride"@, m1);
            if let Some(Ok(m2)) = window_list_step(body, "stride"@, m1) {
                lemma_agree_trans(m, m1, m2, conv_keys());
                lemma_window_list_agrees(body, "base_dilations"@, m2);
                if let Some(Ok(m3)) = window_list_step(body, "base_dilations"@, m2) {
                    lemma_agree_trans(m, m2, m3, conv_keys());
                    lemma_window_list_agrees(body, "window_dilations"@, m3);
                    lemma_agree_trans(m, m3, window_list_map(body, "window_dilations"@, m3), conv_keys());
                }
            }
        }
    }
}

/// Reading the convolution attributes of a line changes, in every outcome, at
/// most the seven convolution keys; and a line that names none of
/// `dim_numbers`, `window`, `batch_group_count` and `feature_group_count`
/// reads successfully and changes nothing.
pub proof fn law_conv_attrs_touch_only_conv_keys(s: Seq<char>, m: Map<Seq<char>, AttrView>)
    ensures
        agree_outside(m, conv_attrs_map(s, m), conv_keys()),
        conv_attrs_spec(s, m) matches Some(Ok(m1)) ==> m1 == conv_attrs_map(s, m),
        find(s, "dim_numbers"@) is None && find(s, "window"@) is None && find(
            s,
            "batch_group_count"@,
        ) is None && find(s, "feature_group_count"@) is None ==> conv_attrs_spec(s, m) == Some(
            Ok::<Map<Seq<char>, AttrView>, ParseErrorView>(m),
        ) && conv_attrs_map(s, m) == m,
{
    reveal_strlit("dim_numbers");
    reveal_strlit("batch_group_count");
    reveal_strlit("feature_group_count");
    assert(conv_keys().contains("dim_numbers"@));
    assert(conv_keys().contains("batch_group_count"@));
    assert(conv_keys().contains("feature_group_count"@));
    if let Ok(d) = dim_numbers_spec(s) {
        let m1 = match d {
            Some(a) => m.insert("dim_numbers"@, a),
            None => m,
        };
        lemma_window_agrees(s, m1);
        lemma_agree_trans(m, m1, window_map(s, m1), conv_keys());
        if let Some(Ok(m2)) = window_spec(s, m1) {
            lemma_agree_trans(m, m1, m2, conv_keys());
            let m3 = group_count_step(s, "batch_group_count"@, m2);
            lemma_agree_trans(m, m2, m3, conv_keys());
            lemma_agree_trans(m, m3, group_count_step(s, "feature_group_count"@, m3), conv_keys());
        }
    }
}

/// The trimmed list between the first `[` at or after `start` and the next `]`,
/// and the index after that `]`. Indices count the characters of the line
/// (`cs` holds them).
pub fn extract_bracket_list(s: &str, cs: &Vec<char>, start: usize) -> (r: Result<
    (String, usize),
    ParseError,
>)
    requires
        cs@ == s@,
    ensures
        match bracket_list_spec(s@, start as int) {
            Ok((body, end)) => r matches Ok((b, e)) && b@ == body && e == end,
            Err(e) => r matches Err(x) && x@ == e,
        },
{
    match find_char_from(cs, '[', start) {
        None => Err(ParseError::UnclosedBracketList),
        Some(q) => {
            proof {
                lemma_find_from_bounds(cs@, seq!['['], start as int);
                lemma_occurs_char(cs@, '[', q as int);
            }
            match find_char_from(cs, ']', q + 1) {
                None => Err(ParseError::UnclosedBracketList),
                Some(k) => {
                    proof {
                        lemma_find_from_bounds(cs@, seq![']'], q + 1);
                        lemma_occurs_char(cs@, ']', k as int);
                    }
                    let (lo, hi) = trim_range(cs, q + 1, k);
                    Ok((substring(s, lo, hi), k + 1))
                },
            }
        },
    }
}

/// The first `[` at or after `from`, counting characters.
pub fn next_bracket_after(cs: &Vec<char>, from: usize) -> (r: Result<usize, ParseError>)
    ensures
        match next_bracket_spec(cs@, from as int) {
            Ok(k) => r matches Ok(x) && x as int == k,
            Err(e) => r matches Err(x) && x@ == e,
        },
{
    match find_char_from(cs, '[', from) {
        None => Err(ParseError::ExpectedBracket),
        Some(k) => Ok(k),
    }
}

/// The first `}` from `open` on at which the braces counted from `open` (`{`
/// up, `}` down, from nothing open) all close; positions count the characters
/// of `cs`.
pub fn find_matching_brace(cs: &Vec<char>, open: usize) -> (r: Option<usize>)
    ensures
        opt_int(r) == brace_match(cs@, open as int, 0),
        r matches Some(c) ==> open <= c < cs.len() && cs@[c as int] == '}',
{
    proof {
        lemma_brace_match_bounds(cs@, open as int, 0);
    }
    let mut opens: usize = 0;
    let mut closes: usize = 0;
    let mut i = open;
    while i < cs.len()
        invariant
            open <= i,
            i < cs.len() ==> opens + closes <= i - open,
            brace_match(cs@, open as int, 0) == brace_match(cs@, i as int, opens - closes),
        decreases cs.len() - i,
    {
        let c = cs[i];
        if c == '{' {
            opens = opens + 1;
        } else if c == '}' {
            if opens == closes + 1 {
                return Some(i);
            }
            closes = closes + 1;
        }
        i = i + 1;
    }
    None
}

/// The non-empty trimmed pieces of `s` between commas.
pub fn split_tags(s: String) -> (r: Vec<String>)
    ensures
        strings_view(r@) == split_tags_spec(s@),
{
    let text = s.as_str();
    let cs = chars_of(text);
    let mut out: Vec<String> = Vec::new();
    let mut a: usize = 0;
    assert(strings_view(out@) + tags_from(cs@, 0) =~= tags_from(cs@, 0));
    loop
        invariant
            a <= cs.len(),
            cs@ == text@,
            text@ == s@,
            split_tags_spec(s@) == strings_view(out@) + tags_from(cs@, a as int),
        decreases cs.len() - a,
    {
        let found = find_char_from(&cs, ',', a);
        let end = match found {
            Some(k) => k,
            None => cs.len(),
        };
        proof {
            lemma_find_from_bounds(cs@, seq![','], a as int);
        }
        let (lo, hi) = trim_range(&cs, a, end);
        let ghost kept = keep_tag(cs@.subrange(a as int, end as int));
        let ghost before = strings_view(out@);
        if lo < hi {
            out.push(substring(text, lo, hi));
            assert(strings_view(out@) =~= before + kept);
        } else {
            assert(strings_view(out@) =~= before + kept);
        }
        match found {
            None => {
                assert(tags_from(cs@, a as int) == kept);
                return out;
            },
            Some(k) => {
                assert(tags_from(cs@, a as int) == kept + tags_from(cs@, k + 1));
                assert(before + (kept + tags_from(cs@, k + 1)) =~= (before + kept) + tags_from(
                    cs@,
                    k + 1,
                ));
                a = k + 1;
            },
        }
    }
}

/// An integer list written in text, starting with its `[`, and the index
/// (in characters) after its `]`; `None` where a number does not fit in a
/// `usize` (reading it panics).
pub fn try_parse_bracket_intvec(s: &Vec<char>) -> (r: Option<Result<(Vec<usize>, usize), ParseError>>)
    requires
        s.len() > 0,
        s@[0] == '[',
    ensures
        match bracket_intvec_spec(s@) {
            None => r is None,
            Some(Ok((v, end))) => r matches Some(Ok((x, e))) && x@ == v && e == end,
            Some(Err(e)) => r matches Some(Err(x)) && x@ == e,
        },
{
    let mut out: Vec<usize> = Vec::new();
    let mut num: Vec<char> = Vec::new();
    let mut i: usize = 1;
    while i < s.len()
        invariant
            1 <= i <= s.len(),
            all_digits(num@),
            bracket_intvec_spec(s@) == intvec_text_spec(s@, i as int, num@, out@),
        decreases s.len() - i,
    {
        let c = s[i];
        if char_is_ascii_digit(c) {
            num.push(c);
            assert(all_digits(num@)) by {
                assert forall|k: int| 0 <= k < num@.len() implies is_ascii_digit(
                    #[trigger] num@[k],
                ) by {
                    if k < num@.len() - 1 {
                        assert(num@[k] == num@.drop_last()[k]);
                    }
                }
            }
        } else if c == ',' {
            if num.len() > 0 {
                assert(num@.subrange(0, num@.len() as int) =~= num@);
                match decimal_upto(&num, 0, num.len(), usize::MAX as u64) {
                    Some(v) => out.push(v as usize),
                    None => return None,
                }
                num = Vec::new();
            }
        } else if c == ']' {
            if num.len() > 0 {
                assert(num@.subrange(0, num@.len() as int) =~= num@);
                match decimal_upto(&num, 0, num.len(), usize::MAX as u64) {
                    Some(v) => out.push(v as usize),
                    None => return None,
                }
            }
            return Some(Ok((out, i + 1)));
        } else if c == ' ' {
        } else {
            return Some(Err(ParseError::BadIntVec));
        }
        i = i + 1;
    }
    Some(Err(ParseError::BadIntVec))
}

proof fn lemma_pad_digits_step(s: Seq<char>, a: int, i: int)
    requires
        0 <= a <= i < s.len(),
    ensures
        pad_digits(s.subrange(a, i + 1)) == ({
            let (x, y) = pad_digits(s.subrange(a, i));
            if !is_ascii_digit(s[i]) {
                (x, y)
            } else if s.subrange(a, i).contains(',') {
                (x, y.push(s[i]))
            } else {
                (x.push(s[i]), y)
            }
        }),
        s.subrange(a, i + 1).contains(',') == (s.subrange(a, i).contains(',') || s[i] == ','),
{
    let seg = s.subrange(a, i + 1);
    assert(seg.drop_last() =~= s.subrange(a, i));
    assert(seg.last() == s[i]);
    if s.subrange(a, i).contains(',') {
        let w = choose|w: int| 0 <= w < i - a && s.subrange(a, i)[w] == ',';
        assert(seg[w] == ',');
    }
    if seg.contains(',') {
        let w = choose|w: int| 0 <= w < i + 1 - a && seg[w] == ',';
        if w < i - a {
            assert(s.subrange(a, i)[w] == ',');
        }
    }
    if s[i] == ',' {
        assert(seg[i - a] == ',');
    }
}

/// The number written by the digits in `ds`, or 0 where there is none or it does not fit.
fn number_or_zero_exec(ds: &Vec<char>) -> (r: usize)
    requires
        all_digits(ds@),
    ensures
        r == number_or_zero(ds@),
{
    if ds.len() == 0 {
        return 0;
    }
    assert(ds@.subrange(0, ds@.len() as int) =~= ds@);
    match decimal_upto(ds, 0, ds.len(), usize::MAX as u64) {
        Some(v) => v as usize,
        None => 0,
    }
}

/// The padding pairs of a window: the first `[lo, hi]` pair of `s`; `None`
/// where a `[` has no `]` after it (reading panics).
pub fn try_parse_pad_pairs(s: &Vec<char>) -> (r: Option<Vec<(usize, usize)>>)
    ensures
        match pad_pairs_spec(s@) {
            None => r is None,
            Some(p) => r matches Some(x) && x@ == p,
        },
{
    let mut pads: Vec<(usize, usize)> = Vec::new();
    let mut i: usize = 0;
    while i < s.len()
        invariant
            i <= s.len(),
            pads@.len() == 0,
            first_bracket(s@, 0) == first_bracket(s@, i as int),
        decreases s.len() - i,
    {
        if s[i] == '[' {
            let q = i;
            i = i + 1;
            let mut a: Vec<char> = Vec::new();
            let mut bnum: Vec<char> = Vec::new();
            let mut reading_b = false;
            assert(s@.subrange(q + 1, i as int) =~= Seq::<char>::empty());
            while i < s.len()
                invariant
                    q < i <= s.len(),
                    s@[q as int] == '[',
                    first_bracket(s@, 0) == Some(q as int),
                    pads@.len() == 0,
                    find_from(s@, seq![']'], q + 1) == find_from(s@, seq![']'], i as int),
                    (a@, bnum@) == pad_digits(s@.subrange(q + 1, i as int)),
                    reading_b == s@.subrange(q + 1, i as int).contains(','),
                    all_digits(a@),
                    all_digits(bnum@),
                decreases s.len() - i,
            {
                let c = s[i];
                proof {
                    lemma_pad_digits_step(s@, q + 1, i as int);
                    lemma_occurs_char(s@, ']', i as int);
                }
                if char_is_ascii_digit(c) {
                    if !reading_b {
                        a.push(c);
                    } else {
                        bnum.push(c);
                    }
                    proof {
                        assert forall|k: int| 0 <= k < a@.len() implies is_ascii_digit(
                            #[trigger] a@[k],
                        ) by {
                            if k < a@.len() - 1 {
                                assert(a@[k] == a@.drop_last()[k]);
                            }
                        }
                        assert forall|k: int| 0 <= k < bnum@.len() implies is_ascii_digit(
                            #[trigger] bnum@[k],
                        ) by {
                            if k < bnum@.len() - 1 {
                                assert(bnum@[k] == bnum@.drop_last()[k]);
                            }
                        }
                    }
                } else if c == ',' {
                    reading_b = true;
                } else if c == ']' {
                    let lo = number_or_zero_exec(&a);
                    let hi = number_or_zero_exec(&bnum);
                    pads.push((lo, hi));
                    assert(pads@ =~= seq![pad_pair(s@.subrange(q + 1, i as int))]);
                    return Some(pads);
                }
                i = i + 1;
            }
            proof {
                crate::text::lemma_find_from_none(s@, seq![']'], s@.len() as int);
            }
            return None;
        }
        if s[i] == ']' {
            assert(pads@ =~= Seq::<(usize, usize)>::empty());
            return Some(pads);
        }
        i = i + 1;
    }
    assert(pads@ =~= Seq::<(usize, usize)>::empty());
    Some(pads)
}

/// The first run of digits of `s` as a `usize`, and the index (in
/// characters) after it.
pub fn parse_trailing_int(s: &Vec<char>) -> (r: Option<(usize, usize)>)
    ensures
        match trailing_int_spec(s@) {
            None => r is None,
            Some((v, end)) => r == Some((v, end as usize)),
        },
{
    let mut i: usize = 0;
    while i < s.len() && !char_is_ascii_digit(s[i])
        invariant
            i <= s.len(),
            first_digit(s@, 0) == first_digit(s@, i as int),
        decreases s.len() - i,
    {
        i = i + 1;
    }
    let start = i;
    proof {
        lemma_run_end(s@, start as int, CharClass::Digit);
    }
    while i < s.len() && char_is_ascii_digit(s[i])
        invariant
            start <= i <= s.len(),
            run_end(s@, start as int, CharClass::Digit) == run_end(s@, i as int, CharClass::Digit),
        decreases s.len() - i,
    {
        i = i + 1;
    }
    if start < i {
        let v = parse_usize(s, start, i)?;
        return Some((v, i));
    }
    None
}

/// An integer list written in text, starting with its `[`, and the index
/// (in characters) after its `]`.
pub fn parse_bracket_intvec(s: &Vec<char>) -> (r: Result<(Vec<usize>, usize), ParseError>)
    requires
        s.len() > 0,
        s@[0] == '[',
        bracket_intvec_spec(s@) is Some,
    ensures
        match bracket_intvec_spec(s@)->0 {
            Ok((v, end)) => r matches Ok((x, e)) && x@ == v && e == end,
            Err(e) => r matches Err(x) && x@ == e,
        },
{
    try_parse_bracket_intvec(s).unwrap()
}

/// The padding pairs of a window: the first `[lo, hi]` pair of `s`.
pub fn parse_pad_pairs(s: &Vec<char>) -> (r: Vec<(usize, usize)>)
    requires
        pad_pairs_spec(s@) is Some,
    ensures
        r@ == pad_pairs_spec(s@)->0,
{
    try_parse_pad_pairs(s).unwrap()
}

} // verus!
