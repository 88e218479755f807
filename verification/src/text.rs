//! Character-level text utilities shared by the lexer and the parser:
//! substring search, whitespace trimming, splitting and decimal numbers.
//! Every operation works on the `char` view of a string.
use vstd::prelude::*;

verus! {

broadcast use vstd::string::group_string_axioms;

/// Rust's `char::is_whitespace`: the Unicode `White_Space` property.
pub open spec fn is_white_space(c: char) -> bool {
    ||| ('\u{9}' <= c && c <= '\u{d}')
    ||| c == ' '
    ||| c == '\u{85}'
    ||| c == '\u{a0}'
    ||| c == '\u{1680}'
    ||| ('\u{2000}' <= c && c <= '\u{200a}')
    ||| c == '\u{2028}'
    ||| c == '\u{2029}'
    ||| c == '\u{202f}'
    ||| c == '\u{205f}'
    ||| c == '\u{3000}'
}

pub open spec fn is_ascii_digit(c: char) -> bool {
    '0' <= c && c <= '9'
}

/// The value of an ASCII digit.
pub open spec fn digit_value(c: char) -> int {
    (c as int) - ('0' as int)
}

/// The number written by a sequence of decimal digits (most significant first).
pub open spec fn decimal_value(ds: Seq<char>) -> int
    decreases ds.len(),
{
    if ds.len() == 0 {
        0
    } else {
        decimal_value(ds.drop_last()) * 10 + digit_value(ds.last())
    }
}

pub open spec fn all_digits(ds: Seq<char>) -> bool {
    forall|k: int| 0 <= k < ds.len() ==> is_ascii_digit(#[trigger] ds[k])
}

/// What `str::parse::<usize>` gives: an optional `+` followed by at least one
/// decimal digit, whose value fits in a `usize`.
pub open spec fn parse_usize_spec(s: Seq<char>) -> Option<usize> {
    let ds = if s.len() > 0 && s[0] == '+' {
        s.drop_first()
    } else {
        s
    };
    if ds.len() > 0 && all_digits(ds) && decimal_value(ds) <= usize::MAX {
        Some(decimal_value(ds) as usize)
    } else {
        None
    }
}

/// `s` with its leading whitespace removed.
pub open spec fn trim_start(s: Seq<char>) -> Seq<char>
    decreases s.len(),
{
    if s.len() > 0 && is_white_space(s[0]) {
        trim_start(s.drop_first())
    } else {
        s
    }
}

/// `s` with its trailing whitespace removed.
pub open spec fn trim_end(s: Seq<char>) -> Seq<char>
    decreases s.len(),
{
    if s.len() > 0 && is_white_space(s.last()) {
        trim_end(s.drop_last())
    } else {
        s
    }
}

/// `str::trim`: leading and trailing whitespace removed.
pub open spec fn trim(s: Seq<char>) -> Seq<char> {
    trim_end(trim_start(s))
}

pub proof fn lemma_trim_start_first(s: Seq<char>)
    ensures
        trim_start(s).len() > 0 ==> !is_white_space(trim_start(s)[0]),
    decreases s.len(),
{
    if s.len() > 0 && is_white_space(s[0]) {
        lemma_trim_start_first(s.drop_first());
    }
}

pub proof fn lemma_trim_end_prefix(s: Seq<char>)
    ensures
        trim_end(s).len() <= s.len(),
        forall|i: int| 0 <= i < trim_end(s).len() ==> trim_end(s)[i] == s[i],
        trim_end(s).len() > 0 ==> !is_white_space(trim_end(s).last()),
    decreases s.len(),
{
    if s.len() > 0 && is_white_space(s.last()) {
        lemma_trim_end_prefix(s.drop_last());
        assert forall|i: int| 0 <= i < trim_end(s).len() implies trim_end(s)[i] == s[i] by {
            assert(s.drop_last()[i] == s[i]);
        }
    }
}

/// A trimmed text that is not empty starts and ends with something other than whitespace.
pub proof fn lemma_trim_ends(s: Seq<char>)
    ensures
        trim(s).len() > 0 ==> !is_white_space(trim(s)[0]) && !is_white_space(trim(s).last()),
{
    lemma_trim_start_first(s);
    lemma_trim_end_prefix(trim_start(s));
}

/// `pat` occurs in `s` at index `k`.
pub open spec fn occurs_at(s: Seq<char>, pat: Seq<char>, k: int) -> bool {
    0 <= k && k + pat.len() <= s.len() && s.subrange(k, k + pat.len()) == pat
}

/// The first index at or after `from` where `pat` occurs in `s`
/// (`s[from..].find(pat)`, counted from the start of `s`).
pub open spec fn find_from(s: Seq<char>, pat: Seq<char>, from: int) -> Option<int>
    decreases s.len() + 1 - from,
{
    if from < 0 || from + pat.len() > s.len() {
        None
    } else if occurs_at(s, pat, from) {
        Some(from)
    } else {
        find_from(s, pat, from + 1)
    }
}

/// The first index where `pat` occurs in `s` (`str::find`).
pub open spec fn find(s: Seq<char>, pat: Seq<char>) -> Option<int> {
    find_from(s, pat, 0)
}

/// An exec index turned into a spec index.
pub open spec fn opt_int(o: Option<usize>) -> Option<int> {
    match o {
        Some(k) => Some(k as int),
        None => None,
    }
}

pub proof fn lemma_find_from_bounds(s: Seq<char>, pat: Seq<char>, from: int)
    ensures
        find_from(s, pat, from) matches Some(k) ==> from <= k && occurs_at(s, pat, k),
        find_from(s, pat, from) matches Some(k) ==> forall|j: int|
            from <= j < k ==> !occurs_at(s, pat, j),
    decreases s.len() + 1 - from,
{
    if !(from < 0 || from + pat.len() > s.len()) && !occurs_at(s, pat, from) {
        lemma_find_from_bounds(s, pat, from + 1);
    }
}

/// A found occurrence is the first one at or after `from`, and no occurrence means none at all.
pub proof fn lemma_find_from_none(s: Seq<char>, pat: Seq<char>, from: int)
    requires
        0 <= from,
    ensures
        find_from(s, pat, from) is None ==> forall|j: int| from <= j ==> !occurs_at(s, pat, j),
    decreases s.len() + 1 - from,
{
    if !(from + pat.len() > s.len()) && !occurs_at(s, pat, from) {
        lemma_find_from_none(s, pat, from + 1);
    }
}

/// A one-character pattern occurs exactly where that character stands.
pub proof fn lemma_occurs_char(s: Seq<char>, c: char, k: int)
    ensures
        occurs_at(s, seq![c], k) == (0 <= k < s.len() && s[k] == c),
{
    if 0 <= k < s.len() {
        assert(s.subrange(k, k + 1) =~= seq![s[k]]);
        if s[k] != c {
            assert(seq![s[k]][0] != seq![c][0]);
        }
    }
}

/// Copies the characters `a..b` of `s` into a new vector.
pub fn slice_chars(s: &Vec<char>, a: usize, b: usize) -> (r: Vec<char>)
    requires
        a <= b <= s.len(),
    ensures
        r@ == s@.subrange(a as int, b as int),
{
    let mut r: Vec<char> = Vec::new();
    let mut k = a;
    while k < b
        invariant
            a <= k <= b <= s.len(),
            r@ == s@.subrange(a as int, k as int),
        decreases b - k,
    {
        r.push(s[k]);
        k = k + 1;
        assert(r@ =~= s@.subrange(a as int, k as int));
    }
    r
}

/// Copies the characters of `s` into a vector.
pub fn chars_of(s: &str) -> (v: Vec<char>)
    ensures
        v@ == s@,
{
    let mut v: Vec<char> = Vec::new();
    for c in it: s.chars()
        invariant
            it.seq() == s@,
            v@ == it.seq().take(it.index() as int),
    {
        v.push(c);
        assert(v@ =~= it.seq().take(it.index() + 1));
    }
    assert(v@ =~= s@);
    v
}

/// The characters `a..b` of `s` as an owned string.
pub fn substring(s: &str, a: usize, b: usize) -> (r: String)
    requires
        a <= b <= s@.len(),
    ensures
        r@ == s@.subrange(a as int, b as int),
{
    s.substring_char(a, b).to_owned()
}

/// Whether two strings have the same characters.
pub fn str_eq(a: &str, b: &str) -> (r: bool)
    ensures
        r == (a@ == b@),
{
    let x: String = a.to_owned();
    let y: String = b.to_owned();
    x == y
}

/// `char::is_whitespace`.
pub fn char_is_white_space(c: char) -> (r: bool)
    ensures
        r == is_white_space(c),
{
    ('\u{9}' <= c && c <= '\u{d}') || c == ' ' || c == '\u{85}' || c == '\u{a0}' || c
        == '\u{1680}' || ('\u{2000}' <= c && c <= '\u{200a}') || c == '\u{2028}' || c
        == '\u{2029}' || c == '\u{202f}' || c == '\u{205f}' || c == '\u{3000}'
}

/// `char::is_ascii_digit`.
pub fn char_is_ascii_digit(c: char) -> (r: bool)
    ensures
        r == is_ascii_digit(c),
{
    '0' <= c && c <= '9'
}

/// Whether `pat` occurs in `s` at index `k`.
pub fn occurs_at_exec(s: &Vec<char>, pat: &Vec<char>, k: usize) -> (r: bool)
    ensures
        r == occurs_at(s@, pat@, k as int),
{
    if pat.len() > s.len() || k > s.len() - pat.len() {
        return false;
    }
    let mut j: usize = 0;
    while j < pat.len()
        invariant
            j <= pat.len(),
            k + pat.len() <= s.len(),
            forall|m: int| 0 <= m < j ==> s@[k + m] == pat@[m],
        decreases pat.len() - j,
    {
        if s[k + j] != pat[j] {
            assert(s@.subrange(k as int, k + pat.len())[j as int] != pat@[j as int]);
            return false;
        }
        j = j + 1;
    }
    assert(s@.subrange(k as int, k + pat.len()) =~= pat@);
    true
}

/// `s[from..].find(pat)`, counted from the start of `s`.
pub fn find_from_exec(s: &Vec<char>, pat: &Vec<char>, from: usize) -> (r: Option<usize>)
    requires
        pat.len() >= 1,
    ensures
        opt_int(r) == find_from(s@, pat@, from as int),
        r matches Some(k) ==> from <= k && k + pat.len() <= s.len(),
{
    let mut k = from;
    while k <= s.len() && pat.len() <= s.len() - k
        invariant
            from <= k,
            find_from(s@, pat@, from as int) == find_from(s@, pat@, k as int),
            pat.len() >= 1,
        decreases s.len() + 1 - k,
    {
        if occurs_at_exec(s, pat, k) {
            return Some(k);
        }
        k = k + 1;
    }
    None
}

/// The first index of the character `c` in `s` at or after `from`.
pub fn find_char_from(s: &Vec<char>, c: char, from: usize) -> (r: Option<usize>)
    ensures
        opt_int(r) == find_from(s@, seq![c], from as int),
        r matches Some(k) ==> from <= k < s.len() && s@[k as int] == c,
{
    let mut k = from;
    while k < s.len()
        invariant
            from <= k,
            find_from(s@, seq![c], from as int) == find_from(s@, seq![c], k as int),
        decreases s.len() - k,
    {
        assert(s@.subrange(k as int, k + 1) =~= seq![s@[k as int]]);
        assert(s@[k as int] != c ==> seq![s@[k as int]][0] != seq![c][0]);
        if s[k] == c {
            return Some(k);
        }
        k = k + 1;
    }
    None
}

proof fn lemma_trim_start_step(s: Seq<char>, a: int, b: int)
    requires
        0 <= a < b <= s.len(),
    ensures
        is_white_space(s[a]) ==> trim_start(s.subrange(a, b)) == trim_start(s.subrange(a + 1, b)),
        !is_white_space(s[a]) ==> trim_start(s.subrange(a, b)) == s.subrange(a, b),
{
    assert(s.subrange(a, b).drop_first() =~= s.subrange(a + 1, b));
}

proof fn lemma_trim_end_step(s: Seq<char>, a: int, b: int)
    requires
        0 <= a < b <= s.len(),
    ensures
        is_white_space(s[b - 1]) ==> trim_end(s.subrange(a, b)) == trim_end(s.subrange(a, b - 1)),
        !is_white_space(s[b - 1]) ==> trim_end(s.subrange(a, b)) == s.subrange(a, b),
{
    assert(s.subrange(a, b).drop_last() =~= s.subrange(a, b - 1));
}

/// The bounds of `trim(s[a..b])` within `s`.
pub fn trim_range(s: &Vec<char>, a: usize, b: usize) -> (r: (usize, usize))
    requires
        a <= b <= s.len(),
    ensures
        a <= r.0 <= r.1 <= b,
        s@.subrange(r.0 as int, r.1 as int) == trim(s@.subrange(a as int, b as int)),
{
    let mut lo = a;
    while lo < b && char_is_white_space(s[lo])
        invariant
            a <= lo <= b <= s.len(),
            trim_start(s@.subrange(a as int, b as int)) == trim_start(
                s@.subrange(lo as int, b as int),
            ),
        decreases b - lo,
    {
        proof {
            lemma_trim_start_step(s@, lo as int, b as int);
        }
        lo = lo + 1;
    }
    proof {
        if lo < b {
            lemma_trim_start_step(s@, lo as int, b as int);
        } else {
            assert(s@.subrange(lo as int, b as int) =~= Seq::<char>::empty());
        }
    }
    let mut hi = b;
    while hi > lo && char_is_white_space(s[hi - 1])
        invariant
            a <= lo <= hi <= b <= s.len(),
            trim(s@.subrange(a as int, b as int)) == trim_end(s@.subrange(lo as int, hi as int)),
        decreases hi - lo,
    {
        proof {
            lemma_trim_end_step(s@, lo as int, hi as int);
        }
        hi = hi - 1;
    }
    proof {
        if hi > lo {
            lemma_trim_end_step(s@, lo as int, hi as int);
        } else {
            assert(s@.subrange(lo as int, hi as int) =~= Seq::<char>::empty());
        }
    }
    (lo, hi)
}

proof fn lemma_decimal_push(s: Seq<char>, a: int, k: int)
    requires
        0 <= a <= k < s.len(),
    ensures
        decimal_value(s.subrange(a, k + 1)) == decimal_value(s.subrange(a, k)) * 10
            + digit_value(s[k]),
{
    assert(s.subrange(a, k + 1).drop_last() =~= s.subrange(a, k));
}

pub proof fn lemma_decimal_nonneg(ds: Seq<char>)
    requires
        all_digits(ds),
    ensures
        decimal_value(ds) >= 0,
    decreases ds.len(),
{
    if ds.len() > 0 {
        assert(all_digits(ds.drop_last())) by {
            assert forall|k: int| 0 <= k < ds.drop_last().len() implies is_ascii_digit(
                #[trigger] ds.drop_last()[k],
            ) by {
                assert(ds.drop_last()[k] == ds[k]);
            }
        }
        lemma_decimal_nonneg(ds.drop_last());
        assert(is_ascii_digit(ds[ds.len() - 1]));
    }
}

/// The decimal value of the digits `s[a..b]`, or `None` when it exceeds `max`.
pub fn decimal_upto(s: &Vec<char>, a: usize, b: usize, max: u64) -> (r: Option<u64>)
    requires
        a <= b <= s.len(),
        all_digits(s@.subrange(a as int, b as int)),
        max >= 9,
    ensures
        match r {
            Some(v) => v == decimal_value(s@.subrange(a as int, b as int)) && v <= max,
            None => decimal_value(s@.subrange(a as int, b as int)) > max,
        },
{
    let mut v: u64 = 0;
    let mut k = a;
    assert(s@.subrange(a as int, a as int) =~= Seq::<char>::empty());
    while k < b
        invariant
            a <= k <= b <= s.len(),
            all_digits(s@.subrange(a as int, b as int)),
            v == decimal_value(s@.subrange(a as int, k as int)),
            v <= max,
            max >= 9,
        decreases b - k,
    {
        assert(s@.subrange(a as int, b as int)[k - a] == s@[k as int]);
        let d = (s[k] as u32 - '0' as u32) as u64;
        proof {
            lemma_decimal_push(s@, a as int, k as int);
        }
        if v > (max - d) / 10 {
            proof {
                assert(v * 10 + d > max) by (nonlinear_arith)
                    requires
                        v > (max - d) / 10,
                        d <= 9,
                        d <= max,
                ;
                assert forall|j: int| k + 1 <= j <= b implies #[trigger] decimal_value(
                    s@.subrange(a as int, j),
                ) > max by {
                    lemma_decimal_grows(s@, a as int, k + 1, j);
                }
            }
            return None;
        }
        v = v * 10 + d;
        k = k + 1;
    }
    Some(v)
}

/// Appending digits never makes a decimal value smaller.
proof fn lemma_decimal_grows(s: Seq<char>, a: int, k: int, j: int)
    requires
        0 <= a <= k <= j <= s.len(),
        all_digits(s.subrange(a, j)),
    ensures
        decimal_value(s.subrange(a, k)) <= decimal_value(s.subrange(a, j)),
    decreases j - k,
{
    if k < j {
        lemma_decimal_grows(s, a, k, j - 1);
        lemma_decimal_push(s, a, j - 1);
        assert(s.subrange(a, j)[j - 1 - a] == s[j - 1]);
        assert(all_digits(s.subrange(a, j - 1))) by {
            assert forall|m: int| 0 <= m < j - 1 - a implies is_ascii_digit(
                #[trigger] s.subrange(a, j - 1)[m],
            ) by {
                assert(s.subrange(a, j - 1)[m] == s.subrange(a, j)[m]);
            }
        }
        lemma_decimal_nonneg(s.subrange(a, j - 1));
    }
}

/// Whether every character of `s[a..b]` is an ASCII digit.
pub fn digits_only(s: &Vec<char>, a: usize, b: usize) -> (r: bool)
    requires
        a <= b <= s.len(),
    ensures
        r == all_digits(s@.subrange(a as int, b as int)),
{
    let mut k = a;
    while k < b
        invariant
            a <= k <= b <= s.len(),
            forall|m: int| a <= m < k ==> is_ascii_digit(#[trigger] s@[m]),
        decreases b - k,
    {
        if !char_is_ascii_digit(s[k]) {
            assert(s@.subrange(a as int, b as int)[k - a] == s@[k as int]);
            return false;
        }
        k = k + 1;
    }
    assert forall|m: int| 0 <= m < b - a implies is_ascii_digit(
        #[trigger] s@.subrange(a as int, b as int)[m],
    ) by {
        assert(s@.subrange(a as int, b as int)[m] == s@[a + m]);
    }
    true
}

/// `s[a..b].parse::<usize>().ok()`.
pub fn parse_usize(s: &Vec<char>, a: usize, b: usize) -> (r: Option<usize>)
    requires
        a <= b <= s.len(),
    ensures
        r == parse_usize_spec(s@.subrange(a as int, b as int)),
{
    let ghost whole = s@.subrange(a as int, b as int);
    let start = if a < b && s[a] == '+' {
        a + 1
    } else {
        a
    };
    assert(a < b && s@[a as int] == '+' ==> whole.drop_first() =~= s@.subrange(
        start as int,
        b as int,
    ));
    assert(!(a < b && s@[a as int] == '+') ==> whole =~= s@.subrange(start as int, b as int));
    assert(whole.len() > 0 ==> whole[0] == s@[a as int]);
    if start == b || !digits_only(s, start, b) {
        return None;
    }
    match decimal_upto(s, start, b, usize::MAX as u64) {
        Some(v) => Some(v as usize),
        None => None,
    }
}

} // verus!
