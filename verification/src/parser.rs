//! The parser for single StableHLO operation lines, over the lexer's tokens.
use vstd::prelude::*;

use crate::ast::{
    Attr,
    AttrMap,
    AttrView,
    Operation,
    OperationView,
    strings_view,
};
use crate::conv::{
    conv_attrs_map,
    conv_attrs_spec,
    dim_numbers_spec,
    extract_bracket_list,
    find_matching_brace,
    group_count_step,
    lemma_brace_match_bounds,
    next_bracket_after,
    pad_map,
    pad_step,
    try_parse_bracket_intvec,
    try_parse_pad_pairs,
    parse_trailing_int,
    split_tags,
    window_body_spec,
    window_list_map,
    window_list_step,
    window_map,
    window_spec,
};
use crate::lexer::{
    Tok,
    TokView,
    law_tokens_well_formed,
    same_tok,
    tokens_of,
    views,
    well_formed_token,
};
use crate::text::{
    chars_of,
    find,
    find_char_from,
    find_from_exec,
    slice_chars,
    str_eq,
    substring,
    trim,
    trim_range,
};

verus! {

broadcast use vstd::string::group_string_axioms;

/// Why a line could not be parsed.
#[derive(Debug, PartialEq)]
pub enum ParseError {
    /// A token that has no place in an operand list (or the end of the line).
    UnexpectedOperandToken(Option<Tok>),
    ExpectedPercentIdent,
    ExpectedIdent,
    ExpectedToken { want: Tok, got: Option<Tok> },
    /// A token that has no place in an integer list `[..]`.
    BadIntVecToken(Option<Tok>),
    ExpectedInteger(Option<Tok>),
    /// A `return` line names no `%value`.
    ReturnMissingIdent,
    /// A `[` without a later `]`.
    UnclosedBracketList,
    /// The `dim_numbers` of a convolution have no `x` after their first list.
    DimNumbersMissingX,
    /// The `dim_numbers` of a convolution have no `->` after their second list.
    DimNumbersMissingArrow,
    /// No `[` where a list should start.
    ExpectedBracket,
    /// A window integer list holds something other than digits, `,` and spaces.
    BadIntVec,
}

pub open spec fn opt_tok_view(o: Option<Tok>) -> Option<TokView> {
    match o {
        Some(t) => Some(t@),
        None => None,
    }
}

/// The mathematical view of a parse error.
pub enum ParseErrorView {
    UnexpectedOperandToken(Option<TokView>),
    ExpectedPercentIdent,
    ExpectedIdent,
    ExpectedToken { want: TokView, got: Option<TokView> },
    BadIntVecToken(Option<TokView>),
    ExpectedInteger(Option<TokView>),
    ReturnMissingIdent,
    UnclosedBracketList,
    DimNumbersMissingX,
    DimNumbersMissingArrow,
    ExpectedBracket,
    BadIntVec,
}

impl View for ParseError {
    type V = ParseErrorView;

    open spec fn view(&self) -> ParseErrorView {
        match self {
            ParseError::UnexpectedOperandToken(o) => ParseErrorView::UnexpectedOperandToken(
                opt_tok_view(*o),
            ),
            ParseError::ExpectedPercentIdent => ParseErrorView::ExpectedPercentIdent,
            ParseError::ExpectedIdent => ParseErrorView::ExpectedIdent,
            ParseError::ExpectedToken { want, got } => ParseErrorView::ExpectedToken {
                want: want@,
                got: opt_tok_view(*got),
            },
            ParseError::BadIntVecToken(o) => ParseErrorView::BadIntVecToken(opt_tok_view(*o)),
            ParseError::ExpectedInteger(o) => ParseErrorView::ExpectedInteger(opt_tok_view(*o)),
            ParseError::ReturnMissingIdent => ParseErrorView::ReturnMissingIdent,
            ParseError::UnclosedBracketList => ParseErrorView::UnclosedBracketList,
            ParseError::DimNumbersMissingX => ParseErrorView::DimNumbersMissingX,
            ParseError::DimNumbersMissingArrow => ParseErrorView::DimNumbersMissingArrow,
            ParseError::ExpectedBracket => ParseErrorView::ExpectedBracket,
            ParseError::BadIntVec => ParseErrorView::BadIntVec,
        }
    }
}

/// The result of a parsing step, and the token index after it.
pub type Parsed<T> = (Result<T, ParseErrorView>, int);

/// The token at index `p`, if any.
pub open spec fn tok_at(t: Seq<TokView>, p: int) -> Option<TokView> {
    if 0 <= p < t.len() {
        Some(t[p])
    } else {
        None
    }
}

/// The index after reading one token at `p` (the end stays the end).
pub open spec fn next_pos(t: Seq<TokView>, p: int) -> int {
    if 0 <= p < t.len() {
        p + 1
    } else {
        p
    }
}

pub open spec fn expect_percent_ident_spec(t: Seq<TokView>, p: int) -> Parsed<Seq<char>> {
    (
        match tok_at(t, p) {
            Some(TokView::PercentIdent(s)) => Ok(s),
            _ => Err(ParseErrorView::ExpectedPercentIdent),
        },
        next_pos(t, p),
    )
}

pub open spec fn expect_ident_spec(t: Seq<TokView>, p: int) -> Parsed<Seq<char>> {
    (
        match tok_at(t, p) {
            Some(TokView::Ident(s)) => Ok(s),
            _ => Err(ParseErrorView::ExpectedIdent),
        },
        next_pos(t, p),
    )
}

pub open spec fn expect_spec(t: Seq<TokView>, p: int, want: TokView) -> Parsed<()> {
    (
        if tok_at(t, p) == Some(want) {
            Ok(())
        } else {
            Err(ParseErrorView::ExpectedToken { want, got: tok_at(t, p) })
        },
        next_pos(t, p),
    )
}

pub open spec fn expect_integer_spec(t: Seq<TokView>, p: int) -> Parsed<int> {
    (
        match tok_at(t, p) {
            Some(TokView::Integer(i)) => Ok(i),
            other => Err(ParseErrorView::ExpectedInteger(other)),
        },
        next_pos(t, p),
    )
}

/// The items of an integer list from index `p` to its `]`, after those in `acc`.
/// Each integer is taken `as usize`.
pub open spec fn intvec_items_spec(t: Seq<TokView>, p: int, acc: Seq<usize>) -> Parsed<
    Seq<usize>,
>
    decreases t.len() - p,
{
    match tok_at(t, p) {
        Some(TokView::Integer(i)) => intvec_items_spec(t, p + 1, acc.push(i as usize)),
        Some(TokView::Comma) => intvec_items_spec(t, p + 1, acc),
        Some(TokView::RBracket) => (Ok(acc), p + 1),
        other => (Err(ParseErrorView::BadIntVecToken(other)), p),
    }
}

/// An integer list `[a, b, ..]` at index `p`.
pub open spec fn parse_intvec_spec(t: Seq<TokView>, p: int) -> Parsed<Seq<usize>> {
    let (r, q) = expect_spec(t, p, TokView::LBracket);
    match r {
        Err(e) => (Err(e), q),
        Ok(_) => intvec_items_spec(t, q, Seq::empty()),
    }
}

/// The identifiers that end an operand list without being read.
pub open spec fn ends_operands(s: Seq<char>) -> bool {
    s == "dim"@ || s == "dims"@ || s == "dim_numbers"@ || s == "apply"@ || s == "dense"@
}

/// The operands from index `p` on, after those in `acc`: `%names`, with `,`,
/// `(`, `)` and `init` skipped, up to a `:` (read) or an identifier of
/// `ends_operands` (not read).
pub open spec fn operands_spec(t: Seq<TokView>, p: int, acc: Seq<Seq<char>>) -> Parsed<
    Seq<Seq<char>>,
>
    decreases t.len() - p,
{
    match tok_at(t, p) {
        Some(TokView::PercentIdent(s)) => operands_spec(t, p + 1, acc.push(s)),
        Some(TokView::Colon) => (Ok(acc), p + 1),
        Some(TokView::Comma) => operands_spec(t, p + 1, acc),
        Some(TokView::LParen) => operands_spec(t, p + 1, acc),
        Some(TokView::RParen) => operands_spec(t, p + 1, acc),
        Some(TokView::Ident(s)) => if s == "init"@ {
            operands_spec(t, p + 1, acc)
        } else if ends_operands(s) {
            (Ok(acc), p)
        } else {
            (Err(ParseErrorView::UnexpectedOperandToken(Some(TokView::Ident(s)))), p)
        },
        other => (Err(ParseErrorView::UnexpectedOperandToken(other)), p),
    }
}

/// The attribute read at index `p` (where there is a token), added to `m`.
pub open spec fn attr_step(t: Seq<TokView>, p: int, m: Map<Seq<char>, AttrView>) -> Parsed<
    Map<Seq<char>, AttrView>,
> {
    if tok_at(t, p) matches Some(TokView::Ident(s)) && s == "dims"@ {
        let (r1, q1) = expect_spec(t, p + 1, TokView::Eq);
        match r1 {
            Err(e) => (Err(e), q1),
            Ok(_) => {
                let (r2, q2) = parse_intvec_spec(t, q1);
                match r2 {
                    Err(e) => (Err(e), q2),
                    Ok(v) => (Ok(m.insert("dims"@, AttrView::IntVec(v))), q2),
                }
            },
        }
    } else if tok_at(t, p) matches Some(TokView::Ident(s)) && s == "dim"@ {
        let (r1, q1) = expect_spec(t, p + 1, TokView::Eq);
        match r1 {
            Err(e) => (Err(e), q1),
            Ok(_) => {
                let (r2, q2) = expect_integer_spec(t, q1);
                match r2 {
                    Err(e) => (Err(e), q2),
                    Ok(v) => (Ok(m.insert("dim"@, AttrView::Int(v))), q2),
                }
            },
        }
    } else if tok_at(t, p) matches Some(TokView::Ident(s)) && s == "applies"@ {
        let (r1, q1) = expect_ident_spec(t, p + 1);
        match r1 {
            Err(e) => (Err(e), q1),
            Ok(id) => {
                let m1 = m.insert("apply"@, AttrView::Id(id));
                let q2 = if tok_at(t, q1) matches Some(TokView::Ident(s2)) && s2 == "across"@ {
                    q1 + 1
                } else {
                    q1
                };
                let q3 = if tok_at(t, q2) matches Some(TokView::Ident(s3)) && s3
                    == "dimensions"@ {
                    q2 + 1
                } else {
                    q2
                };
                if tok_at(t, q3) == Some(TokView::Eq) {
                    let (r4, q4) = parse_intvec_spec(t, q3 + 1);
                    match r4 {
                        Err(e) => (Err(e), q4),
                        Ok(v) => (Ok(m1.insert("dimensions"@, AttrView::IntVec(v))), q4),
                    }
                } else {
                    (Ok(m1), q3)
                }
            },
        }
    } else if tok_at(t, p) matches Some(TokView::Ident(s)) && s == "dense"@ {
        let (r1, q1) = expect_spec(t, p + 1, TokView::Less);
        match r1 {
            Err(e) => (Err(e), q1),
            Ok(_) => match tok_at(t, q1) {
                Some(TokView::Float(v)) => (Ok(m.insert("dense"@, AttrView::Float(v))), q1),
                _ => (Ok(m), q1),
            },
        }
    } else {
        (Ok(m), p + 1)
    }
}

pub proof fn lemma_intvec_items_pos(t: Seq<TokView>, p: int, acc: Seq<usize>)
    requires
        0 <= p <= t.len(),
    ensures
        p <= intvec_items_spec(t, p, acc).1 <= t.len(),
    decreases t.len() - p,
{
    match tok_at(t, p) {
        Some(TokView::Integer(i)) => lemma_intvec_items_pos(t, p + 1, acc.push(i as usize)),
        Some(TokView::Comma) => lemma_intvec_items_pos(t, p + 1, acc),
        _ => {},
    }
}

pub proof fn lemma_attr_step_advances(t: Seq<TokView>, p: int, m: Map<Seq<char>, AttrView>)
    requires
        0 <= p < t.len(),
    ensures
        p < attr_step(t, p, m).1 <= t.len(),
{
    assert forall|q: int| 0 <= q <= t.len() implies q <= #[trigger] parse_intvec_spec(t, q).1
        <= t.len() by {
        lemma_intvec_items_pos(t, next_pos(t, q), Seq::empty());
    }
}

/// The attributes from index `p` to the end of the line or a `->`, added to `m`.
pub open spec fn attrs_spec(t: Seq<TokView>, p: int, m: Map<Seq<char>, AttrView>) -> Parsed<
    Map<Seq<char>, AttrView>,
>
    decreases t.len() - p,
{
    if p < 0 || p >= t.len() || t[p] == TokView::Arrow {
        (Ok(m), p)
    } else {
        proof {
            lemma_attr_step_advances(t, p, m);
        }
        let (r, q) = attr_step(t, p, m);
        match r {
            Err(e) => (Err(e), q),
            Ok(m2) => attrs_spec(t, q, m2),
        }
    }
}

/// The first `%name` token at or after `p`, and the index after it; the empty
/// text and the end of the line where there is none.
pub open spec fn return_scan(t: Seq<TokView>, p: int) -> (Seq<char>, int)
    decreases t.len() - p,
{
    if p < 0 || p >= t.len() {
        (Seq::empty(), p)
    } else {
        match t[p] {
            TokView::PercentIdent(s) => (s, p + 1),
            _ => return_scan(t, p + 1),
        }
    }
}

/// What `parse_return` gives from index `p`.
pub open spec fn parse_return_spec(t: Seq<TokView>, p: int) -> Parsed<OperationView> {
    let (ret, q) = return_scan(t, p);
    if ret.len() == 0 {
        (Err(ParseErrorView::ReturnMissingIdent), q)
    } else {
        (
            Ok(
                OperationView {
                    result_name: "%_ret"@,
                    name: "return"@,
                    operands: seq![ret],
                    attributes: Map::empty(),
                    result_type_src: Seq::empty(),
                },
            ),
            q,
        )
    }
}

/// The result type written after the first `->` of the line, trimmed, where
/// the token at `p` is `->`; empty otherwise.
pub open spec fn result_type_spec(src: Seq<char>, t: Seq<TokView>, p: int) -> Seq<char> {
    if tok_at(t, p) == Some(TokView::Arrow) {
        match find(src, "->"@) {
            Some(k) => trim(src.subrange(k + 2, src.len() as int)),
            None => Seq::empty(),
        }
    } else {
        Seq::empty()
    }
}

/// What reading an operation gives.
pub enum OpOutcome {
    /// The operation, and the token index after it.
    Parsed(OperationView, int),
    /// The error, and the token index where reading stopped.
    Failed(ParseErrorView, int),
    /// Reading panics (a convolution attribute that cannot be read).
    Panics,
}

/// The operation `%name = op.name operands.. attributes.. -> type` read from
/// index `p` of the tokens `t` of the line `src`.
pub open spec fn parse_operation_spec(src: Seq<char>, t: Seq<TokView>, p: int) -> OpOutcome {
    let (r1, p1) = expect_percent_ident_spec(t, p);
    match r1 {
        Err(e) => OpOutcome::Failed(e, p1),
        Ok(result_name) => {
            let (r2, p2) = expect_spec(t, p1, TokView::Eq);
            match r2 {
                Err(e) => OpOutcome::Failed(e, p2),
                Ok(_) => {
                    let (r3, p3) = expect_ident_spec(t, p2);
                    match r3 {
                        Err(e) => OpOutcome::Failed(e, p3),
                        Ok(name) => {
                            let (r4, p4) = operands_spec(t, p3, Seq::empty());
                            match r4 {
                                Err(e) => OpOutcome::Failed(e, p4),
                                Ok(operands) => {
                                    let (r5, p5) = attrs_spec(t, p4, Map::empty());
                                    match r5 {
                                        Err(e) => OpOutcome::Failed(e, p5),
                                        Ok(attrs) => {
                                            let conv = if name == "stablehlo.convolution"@ {
                                                conv_attrs_spec(src, attrs)
                                            } else {
                                                Some(Ok(attrs))
                                            };
                                            match conv {
                                                None => OpOutcome::Panics,
                                                Some(Err(e)) => OpOutcome::Failed(e, p5),
                                                Some(Ok(attrs2)) => OpOutcome::Parsed(
                                                    OperationView {
                                                        result_name,
                                                        name,
                                                        operands,
                                                        attributes: attrs2,
                                                        result_type_src: result_type_spec(
                                                            src,
                                                            t,
                                                            p5,
                                                        ),
                                                    },
                                                    p5,
                                                ),
                                            }
                                        },
                                    }
                                },
                            }
                        },
                    }
                },
            }
        },
    }
}

/// An owned copy of a token, if any.
fn copy_tok(o: Option<&Tok>) -> (r: Option<Tok>)
    ensures
        match o {
            Some(t) => r == Some(*t),
            None => r is None,
        },
{
    match o {
        Some(t) => Some(t.clone()),
        None => None,
    }
}

/// Reads the integer list named `word` from a window body into `attrs`;
/// `None` where reading panics.
fn read_window_list(body: &Vec<char>, word: &str, attrs: &mut AttrMap) -> (r: Option<
    Result<(), ParseError>,
>)
    requires
        word@.len() >= 1,
    ensures
        match window_list_step(body@, word@, old(attrs)@) {
            None => r is None,
            Some(Err(e)) => r matches Some(Err(x)) && x@ == e,
            Some(Ok(m)) => r matches Some(Ok(_)) && final(attrs)@ == m,
        },
        final(attrs)@ == window_list_map(body@, word@, old(attrs)@),
{
    let w = chars_of(word);
    if let Some(wi) = find_from_exec(body, &w, 0) {
        if let Some(lb) = find_char_from(body, '[', wi) {
            let rest = slice_chars(body, lb, body.len());
            match try_parse_bracket_intvec(&rest) {
                None => return None,
                Some(Err(e)) => return Some(Err(e)),
                Some(Ok((v, _))) => {
                    attrs.insert(word.to_owned(), Attr::IntVec(v));
                },
            }
        }
    }
    Some(Ok(()))
}

/// Reads the group count named `word` into `attrs`.
fn read_group_count(cs: &Vec<char>, word: &str, attrs: &mut AttrMap)
    requires
        word@.len() >= 1,
    ensures
        final(attrs)@ == group_count_step(cs@, word@, old(attrs)@),
{
    let w = chars_of(word);
    if let Some(bi) = find_from_exec(cs, &w, 0) {
        let rest = slice_chars(cs, bi, cs.len());
        if let Some((v, _)) = parse_trailing_int(&rest) {
            attrs.insert(word.to_owned(), Attr::Int(v as i64));
        }
    }
}

/// Reads the `dim_numbers` attribute from the text of a line.
fn read_dim_numbers(src: &str, cs: &Vec<char>) -> (r: Result<Option<Attr>, ParseError>)
    requires
        cs@ == src@,
    ensures
        match dim_numbers_spec(src@) {
            Ok(Some(a)) => r matches Ok(Some(x)) && x@ == a,
            Ok(None) => r matches Ok(None),
            Err(e) => r matches Err(x) && x@ == e,
        },
{
    proof {
        reveal_strlit("dim_numbers");
        reveal_strlit("->");
    }
    let dn = chars_of("dim_numbers");
    let idx = match find_from_exec(cs, &dn, 0) {
        Some(k) => k,
        None => return Ok(None),
    };
    let start = match find_char_from(cs, '[', idx) {
        Some(k) => k,
        None => return Ok(None),
    };
    let (a, p1) = extract_bracket_list(src, cs, start)?;
    let x_pos = match find_char_from(cs, 'x', p1) {
        Some(k) => k,
        None => return Err(ParseError::DimNumbersMissingX),
    };
    let nb = next_bracket_after(cs, x_pos)?;
    let (b, p2) = extract_bracket_list(src, cs, nb)?;
    let arrow = chars_of("->");
    let arrow_pos = match find_from_exec(cs, &arrow, p2) {
        Some(k) => k,
        None => return Err(ParseError::DimNumbersMissingArrow),
    };
    let nb2 = next_bracket_after(cs, arrow_pos)?;
    let (c, _p3) = extract_bracket_list(src, cs, nb2)?;
    Ok(Some(Attr::DimNumbers { input: split_tags(a), kernel: split_tags(b), output: split_tags(c) }))
}

/// Reads the window attributes from the text of a line into `attrs`;
/// `None` where reading panics.
fn read_window(cs: &Vec<char>, attrs: &mut AttrMap) -> (r: Option<Result<(), ParseError>>)
    ensures
        match window_spec(cs@, old(attrs)@) {
            None => r is None,
            Some(Err(e)) => r matches Some(Err(x)) && x@ == e,
            Some(Ok(m)) => r matches Some(Ok(_)) && final(attrs)@ == m,
        },
        final(attrs)@ == window_map(cs@, old(attrs)@),
{
    proof {
        reveal_strlit("window");
        reveal_strlit("pad");
        reveal_strlit("stride");
        reveal_strlit("base_dilations");
        reveal_strlit("window_dilations");
    }
    let wpat = chars_of("window");
    let wi = match find_from_exec(cs, &wpat, 0) {
        Some(k) => k,
        None => return Some(Ok(())),
    };
    let open = match find_char_from(cs, '{', wi) {
        Some(k) => k,
        None => return Some(Ok(())),
    };
    let close = match find_matching_brace(cs, open) {
        Some(k) => k,
        None => return Some(Ok(())),
    };
    proof {
        lemma_brace_match_bounds(cs@, open as int, 0);
    }
    let body = slice_chars(cs, open + 1, close);
    assert(window_body_spec(cs@) == Some(body@));
    match read_pad(&body, attrs) {
        None => return None,
        Some(_) => {},
    }
    match read_window_list(&body, "stride", attrs) {
        None => return None,
        Some(Err(e)) => return Some(Err(e)),
        Some(Ok(_)) => {},
    }
    match read_window_list(&body, "base_dilations", attrs) {
        None => return None,
        Some(Err(e)) => return Some(Err(e)),
        Some(Ok(_)) => {},
    }
    read_window_list(&body, "window_dilations", attrs)
}

/// Reads the `window_pad` attribute from a window body into `attrs`;
/// `None` where reading panics.
fn read_pad(body: &Vec<char>, attrs: &mut AttrMap) -> (r: Option<()>)
    ensures
        match pad_step(body@, old(attrs)@) {
            None => r is None,
            Some(m) => r is Some && final(attrs)@ == m,
        },
        final(attrs)@ == pad_map(body@, old(attrs)@),
{
    proof {
        reveal_strlit("pad");
    }
    let pad = chars_of("pad");
    if let Some(pi) = find_from_exec(body, &pad, 0) {
        if let Some(lb) = find_char_from(body, '[', pi) {
            let rest = slice_chars(body, lb, body.len());
            match try_parse_pad_pairs(&rest) {
                None => return None,
                Some(p) => {
                    attrs.insert("window_pad".to_owned(), Attr::PadPairs(p));
                },
            }
        }
    }
    Some(())
}

/// Whether `s` has the characters of `w`.
pub fn is_word(s: &String, w: &str) -> (r: bool)
    ensures
        r == (s@ == w@),
{
    str_eq(s.as_str(), w)
}

/// A parser over the tokens of one line, which keeps the line's text for the
/// attributes that are read from the text itself.
pub struct Parser<'a> {
    src: &'a str,
    toks: Vec<Tok>,
    i: usize,
}

impl<'a> Parser<'a> {
    #[verifier::type_invariant]
    spec fn well_formed(self) -> bool {
        self.i <= self.toks@.len()
    }

    /// The text of the line.
    pub closed spec fn source(self) -> Seq<char> {
        self.src@
    }

    /// The views of the tokens.
    pub closed spec fn tokens(self) -> Seq<TokView> {
        views(self.toks@)
    }

    /// The index of the next token.
    pub closed spec fn pos(self) -> int {
        self.i as int
    }

    pub fn new(src: &'a str, toks: Vec<Tok>) -> (r: Self)
        ensures
            r.source() == src@,
            r.tokens() == views(toks@),
            r.pos() == 0,
    {
        Self { src, toks, i: 0 }
    }

    /// The next token, if any.
    pub fn peek(&self) -> (r: Option<&Tok>)
        ensures
            match r {
                Some(t) => tok_at(self.tokens(), self.pos()) == Some(t@),
                None => tok_at(self.tokens(), self.pos()) is None,
            },
    {
        proof {
            use_type_invariant(self);
        }
        if self.i < self.toks.len() {
            Some(&self.toks[self.i])
        } else {
            None
        }
    }

    /// Reads the next token, if any.
    pub fn bump(&mut self) -> (r: Option<Tok>)
        ensures
            final(self).source() == old(self).source(),
            final(self).tokens() == old(self).tokens(),
            opt_tok_view(r) == tok_at(old(self).tokens(), old(self).pos()),
            final(self).pos() == next_pos(old(self).tokens(), old(self).pos()),
    {
        proof {
            use_type_invariant(&*self);
        }
        if self.i < self.toks.len() {
            let t = self.toks[self.i].clone();
            self.i = self.i + 1;
            Some(t)
        } else {
            None
        }
    }

    fn expect_percent_ident(&mut self) -> (r: Result<String, ParseError>)
        ensures
            final(self).source() == old(self).source(),
            final(self).tokens() == old(self).tokens(),
            final(self).pos() == expect_percent_ident_spec(old(self).tokens(), old(self).pos()).1,
            match expect_percent_ident_spec(old(self).tokens(), old(self).pos()).0 {
                Ok(s) => r matches Ok(x) && x@ == s,
                Err(e) => r matches Err(x) && x@ == e,
            },
    {
        match self.bump() {
            Some(Tok::PercentIdent(s)) => Ok(s),
            _ => Err(ParseError::ExpectedPercentIdent),
        }
    }

    fn expect_ident(&mut self) -> (r: Result<String, ParseError>)
        ensures
            final(self).source() == old(self).source(),
            final(self).tokens() == old(self).tokens(),
            final(self).pos() == expect_ident_spec(old(self).tokens(), old(self).pos()).1,
            match expect_ident_spec(old(self).tokens(), old(self).pos()).0 {
                Ok(s) => r matches Ok(x) && x@ == s,
                Err(e) => r matches Err(x) && x@ == e,
            },
    {
        match self.bump() {
            Some(Tok::Ident(s)) => Ok(s),
            _ => Err(ParseError::ExpectedIdent),
        }
    }

    fn expect(&mut self, want: Tok) -> (r: Result<(), ParseError>)
        ensures
            final(self).source() == old(self).source(),
            final(self).tokens() == old(self).tokens(),
            final(self).pos() == expect_spec(old(self).tokens(), old(self).pos(), want@).1,
            match expect_spec(old(self).tokens(), old(self).pos(), want@).0 {
                Ok(_) => r is Ok,
                Err(e) => r matches Err(x) && x@ == e,
            },
    {
        match self.bump() {
            Some(t) => {
                if same_tok(&t, &want) {
                    Ok(())
                } else {
                    Err(ParseError::ExpectedToken { want, got: Some(t) })
                }
            },
            None => Err(ParseError::ExpectedToken { want, got: None }),
        }
    }

    fn expect_integer(&mut self) -> (r: Result<i64, ParseError>)
        ensures
            final(self).source() == old(self).source(),
            final(self).tokens() == old(self).tokens(),
            final(self).pos() == expect_integer_spec(old(self).tokens(), old(self).pos()).1,
            match expect_integer_spec(old(self).tokens(), old(self).pos()).0 {
                Ok(v) => r matches Ok(x) && x as int == v,
                Err(e) => r matches Err(x) && x@ == e,
            },
    {
        match self.bump() {
            Some(Tok::Integer(i)) => Ok(i),
            other => Err(ParseError::ExpectedInteger(other)),
        }
    }

    fn parse_intvec(&mut self) -> (r: Result<Vec<usize>, ParseError>)
        ensures
            final(self).source() == old(self).source(),
            final(self).tokens() == old(self).tokens(),
            final(self).pos() == parse_intvec_spec(old(self).tokens(), old(self).pos()).1,
            match parse_intvec_spec(old(self).tokens(), old(self).pos()).0 {
                Ok(v) => r matches Ok(x) && x@ == v,
                Err(e) => r matches Err(x) && x@ == e,
            },
    {
        let ghost t = self.tokens();
        self.expect(Tok::LBracket)?;
        let mut out: Vec<usize> = Vec::new();
        loop
            invariant
                self.source() == old(self).source(),
                self.tokens() == t,
                t == old(self).tokens(),
                parse_intvec_spec(t, old(self).pos()) == intvec_items_spec(
                    t,
                    self.pos(),
                    out@,
                ),
            decreases t.len() - self.pos(),
        {
            proof {
                use_type_invariant(&*self);
            }
            match self.peek() {
                Some(Tok::Integer(i)) => {
                    let v = *i as usize;
                    self.bump();
                    out.push(v);
                },
                Some(Tok::Comma) => {
                    self.bump();
                },
                Some(Tok::RBracket) => {
                    self.bump();
                    return Ok(out);
                },
                other => {
                    let got = match other {
                        Some(t) => Some(t.clone()),
                        None => None,
                    };
                    return Err(ParseError::BadIntVecToken(got));
                },
            }
        }
    }

    /// Reads the convolution attributes from the text of the line into `attrs`;
    /// `None` where reading panics.
    fn parse_convolution_attrs(&self, attrs: &mut AttrMap) -> (r: Option<Result<(), ParseError>>)
        ensures
            match conv_attrs_spec(self.source(), old(attrs)@) {
                None => r is None,
                Some(Err(e)) => r matches Some(Err(x)) && x@ == e,
                Some(Ok(m)) => r matches Some(Ok(_)) && final(attrs)@ == m,
            },
            final(attrs)@ == conv_attrs_map(self.source(), old(attrs)@),
    {
        proof {
            reveal_strlit("batch_group_count");
            reveal_strlit("feature_group_count");
        }
        let cs = chars_of(self.src);
        match read_dim_numbers(self.src, &cs) {
            Err(e) => return Some(Err(e)),
            Ok(Some(a)) => {
                attrs.insert("dim_numbers".to_owned(), a);
            },
            Ok(None) => {},
        }
        match read_window(&cs, attrs) {
            None => return None,
            Some(Err(e)) => return Some(Err(e)),
            Some(Ok(_)) => {},
        }
        read_group_count(&cs, "batch_group_count", attrs);
        read_group_count(&cs, "feature_group_count", attrs);
        Some(Ok(()))
    }

    /// Reads an operand list: `%names` up to a `:` or an attribute name.
    fn parse_operands(&mut self) -> (r: Result<Vec<String>, ParseError>)
        ensures
            final(self).source() == old(self).source(),
            final(self).tokens() == old(self).tokens(),
            final(self).pos() == operands_spec(old(self).tokens(), old(self).pos(), Seq::empty()).1,
            match operands_spec(old(self).tokens(), old(self).pos(), Seq::empty()).0 {
                Ok(v) => r matches Ok(x) && strings_view(x@) == v,
                Err(e) => r matches Err(x) && x@ == e,
            },
    {
        let ghost t = self.tokens();
        let ghost p0 = self.pos();
        let mut operands: Vec<String> = Vec::new();
        assert(strings_view(operands@) =~= Seq::<Seq<char>>::empty());
        loop
            invariant_except_break
                operands_spec(t, p0, Seq::empty()) == operands_spec(
                    t,
                    self.pos(),
                    strings_view(operands@),
                ),
            invariant
                self.source() == old(self).source(),
                self.tokens() == t,
                t == old(self).tokens(),
                p0 == old(self).pos(),
            ensures
                operands_spec(t, p0, Seq::empty()) == (
                    Ok::<Seq<Seq<char>>, ParseErrorView>(strings_view(operands@)),
                    self.pos(),
                ),
            decreases t.len() - self.pos(),
        {
            proof {
                use_type_invariant(&*self);
            }
            let next = copy_tok(self.peek());
            match next {
                Some(Tok::PercentIdent(_)) => {
                    let s = self.expect_percent_ident()?;
                    let ghost before = strings_view(operands@);
                    operands.push(s);
                    assert(strings_view(operands@) =~= before.push(s@));
                },
                Some(Tok::Colon) => {
                    self.bump();
                    break ;
                },
                Some(Tok::Comma) | Some(Tok::LParen) | Some(Tok::RParen) => {
                    self.bump();
                },
                Some(Tok::Ident(s)) => {
                    if is_word(&s, "init") {
                        self.bump();
                    } else if is_word(&s, "dim") || is_word(&s, "dims") || is_word(
                        &s,
                        "dim_numbers",
                    ) || is_word(&s, "apply") || is_word(&s, "dense") {
                        break ;
                    } else {
                        return Err(ParseError::UnexpectedOperandToken(Some(Tok::Ident(s))));
                    }
                },
                other => return Err(ParseError::UnexpectedOperandToken(other)),
            }
        }
        Ok(operands)
    }

    /// Reads one attribute (or skips one token) into `attrs`.
    fn parse_attr(&mut self, attrs: &mut AttrMap) -> (r: Result<(), ParseError>)
        requires
            old(self).pos() < old(self).tokens().len(),
        ensures
            final(self).source() == old(self).source(),
            final(self).tokens() == old(self).tokens(),
            final(self).pos() == attr_step(old(self).tokens(), old(self).pos(), old(attrs)@).1,
            match attr_step(old(self).tokens(), old(self).pos(), old(attrs)@).0 {
                Ok(m) => r is Ok && final(attrs)@ == m,
                Err(e) => r matches Err(x) && x@ == e,
            },
    {
        let next = copy_tok(self.peek());
        match next {
            Some(Tok::Ident(s)) => {
                if is_word(&s, "dims") {
                    self.bump();
                    self.expect(Tok::Eq)?;
                    let v = self.parse_intvec()?;
                    attrs.insert("dims".to_owned(), Attr::IntVec(v));
                } else if is_word(&s, "dim") {
                    self.bump();
                    self.expect(Tok::Eq)?;
                    let v = self.expect_integer()?;
                    attrs.insert("dim".to_owned(), Attr::Int(v));
                } else if is_word(&s, "applies") {
                    self.bump();
                    let id = self.expect_ident()?;
                    attrs.insert("apply".to_owned(), Attr::Id(id));
                    if let Some(Tok::Ident(s2)) = copy_tok(self.peek()) {
                        if is_word(&s2, "across") {
                            self.bump();
                        }
                    }
                    if let Some(Tok::Ident(s3)) = copy_tok(self.peek()) {
                        if is_word(&s3, "dimensions") {
                            self.bump();
                        }
                    }
                    if let Some(Tok::Eq) = self.peek() {
                        self.bump();
                        let v = self.parse_intvec()?;
                        attrs.insert("dimensions".to_owned(), Attr::IntVec(v));
                    }
                } else if is_word(&s, "dense") {
                    self.bump();
                    self.expect(Tok::Less)?;
                    if let Some(Tok::Float(v)) = copy_tok(self.peek()) {
                        attrs.insert("dense".to_owned(), Attr::Float(v));
                    }
                } else {
                    self.bump();
                }
            },
            _ => {
                self.bump();
            },
        }
        Ok(())
    }

    /// Reads attributes up to the end of the line or a `->`.
    fn parse_attrs(&mut self) -> (r: Result<AttrMap, ParseError>)
        ensures
            final(self).source() == old(self).source(),
            final(self).tokens() == old(self).tokens(),
            final(self).pos() == attrs_spec(old(self).tokens(), old(self).pos(), Map::empty()).1,
            match attrs_spec(old(self).tokens(), old(self).pos(), Map::empty()).0 {
                Ok(m) => r matches Ok(x) && x@ == m,
                Err(e) => r matches Err(x) && x@ == e,
            },
    {
        let ghost t = self.tokens();
        let ghost p0 = self.pos();
        let mut attrs = AttrMap::new();
        loop
            invariant_except_break
                attrs_spec(t, p0, Map::empty()) == attrs_spec(t, self.pos(), attrs@),
            invariant
                self.source() == old(self).source(),
                self.tokens() == t,
                t == old(self).tokens(),
                p0 == old(self).pos(),
            ensures
                attrs_spec(t, p0, Map::empty()) == (
                    Ok::<Map<Seq<char>, AttrView>, ParseErrorView>(attrs@),
                    self.pos(),
                ),
            decreases t.len() - self.pos(),
        {
            proof {
                use_type_invariant(&*self);
            }
            match self.peek() {
                None | Some(Tok::Arrow) => break ,
                _ => {},
            }
            proof {
                lemma_attr_step_advances(t, self.pos(), attrs@);
            }
            self.parse_attr(&mut attrs)?;
        }
        Ok(attrs)
    }

    /// Reads an operation line, or gives `None` where reading panics (a
    /// convolution attribute that cannot be read); the position is then as before.
    pub fn try_parse_operation(&mut self) -> (r: Option<Result<Operation, ParseError>>)
        ensures
            final(self).source() == old(self).source(),
            final(self).tokens() == old(self).tokens(),
            match parse_operation_spec(old(self).source(), old(self).tokens(), old(self).pos()) {
                OpOutcome::Parsed(op, q) => r matches Some(Ok(x)) && x@ == op && final(self).pos()
                    == q,
                OpOutcome::Failed(e, q) => r matches Some(Err(x)) && x@ == e && final(self).pos()
                    == q,
                OpOutcome::Panics => r is None && final(self).pos() == old(self).pos(),
            },
    {
        proof {
            use_type_invariant(&*self);
        }
        let ghost t = self.tokens();
        let ghost src = self.source();
        let start = self.i;
        let result_name = match self.expect_percent_ident() {
            Ok(s) => s,
            Err(e) => return Some(Err(e)),
        };
        match self.expect(Tok::Eq) {
            Ok(_) => {},
            Err(e) => return Some(Err(e)),
        }
        let name = match self.expect_ident() {
            Ok(s) => s,
            Err(e) => return Some(Err(e)),
        };
        let operands = match self.parse_operands() {
            Ok(v) => v,
            Err(e) => return Some(Err(e)),
        };
        let mut attrs = match self.parse_attrs() {
            Ok(m) => m,
            Err(e) => return Some(Err(e)),
        };
        let ghost p5 = self.pos();
        if is_word(&name, "stablehlo.convolution") {
            match self.parse_convolution_attrs(&mut attrs) {
                None => {
                    proof {
                        use_type_invariant(&*self);
                    }
                    self.i = start;
                    return None;
                },
                Some(Err(e)) => return Some(Err(e)),
                Some(Ok(_)) => {},
            }
        }
        let mut result_type_src = String::new();
        if let Some(Tok::Arrow) = self.peek() {
            let cs = chars_of(self.src);
            let arrow = chars_of("->");
            proof {
                reveal_strlit("->");
            }
            if let Some(pos) = find_from_exec(&cs, &arrow, 0) {
                let (lo, hi) = trim_range(&cs, pos + 2, cs.len());
                result_type_src = substring(self.src, lo, hi);
            }
        }
        Some(
            Ok(
                Operation {
                    result_name,
                    name,
                    operands,
                    attributes: attrs,
                    result_type_src,
                },
            ),
        )
    }

    /// Reads an operation line.
    pub fn parse_operation(&mut self) -> (r: Result<Operation, ParseError>)
        requires
            !(parse_operation_spec(old(self).source(), old(self).tokens(), old(self).pos()) is Panics),
        ensures
            final(self).source() == old(self).source(),
            final(self).tokens() == old(self).tokens(),
            match parse_operation_spec(old(self).source(), old(self).tokens(), old(self).pos()) {
                OpOutcome::Parsed(op, q) => r matches Ok(x) && x@ == op && final(self).pos() == q,
                OpOutcome::Failed(e, q) => r matches Err(x) && x@ == e && final(self).pos() == q,
                OpOutcome::Panics => false,
            },
    {
        self.try_parse_operation().unwrap()
    }

    /// Reads a `return` line: the first `%name` from the position on.
    pub fn parse_return(&mut self) -> (r: Result<Operation, ParseError>)
        ensures
            final(self).source() == old(self).source(),
            final(self).tokens() == old(self).tokens(),
            final(self).pos() == parse_return_spec(old(self).tokens(), old(self).pos()).1,
            match parse_return_spec(old(self).tokens(), old(self).pos()).0 {
                Ok(op) => r matches Ok(x) && x@ == op,
                Err(e) => r matches Err(x) && x@ == e,
            },
    {
        let ghost t = self.tokens();
        let name = "return".to_owned();
        let mut ret = String::new();
        loop
            invariant_except_break
                ret@ == Seq::<char>::empty(),
                return_scan(t, old(self).pos()) == return_scan(t, self.pos()),
            invariant
                self.source() == old(self).source(),
                self.tokens() == t,
                t == old(self).tokens(),
            ensures
                self.source() == old(self).source(),
                self.tokens() == t,
                return_scan(t, old(self).pos()) == (ret@, self.pos()),
            decreases t.len() - self.pos(),
        {
            proof {
                use_type_invariant(&*self);
            }
            match self.bump() {
                Some(tok) => {
                    if let Tok::PercentIdent(s) = tok {
                        ret = s;
                        break ;
                    }
                },
                None => break ,
            }
        }
        if ret.as_str().is_empty() {
            return Err(ParseError::ReturnMissingIdent);
        }
        let mut operands: Vec<String> = Vec::new();
        operands.push(ret);
        let r = Operation {
            result_name: "%_ret".to_owned(),
            name,
            operands,
            attributes: AttrMap::new(),
            result_type_src: String::new(),
        };
        assert(r@.operands =~= seq![return_scan(t, old(self).pos()).0]);
        Ok(r)
    }
}

/// `s` is the text of a `%name` token at or after index `p`.
pub open spec fn is_percent_name_from(t: Seq<TokView>, p: int, s: Seq<char>) -> bool {
    exists|q: int| p <= q < t.len() && t[q] == TokView::PercentIdent(s)
}

proof fn lemma_operands_are_names(t: Seq<TokView>, p: int, acc: Seq<Seq<char>>, p0: int)
    requires
        0 <= p0 <= p,
        forall|k: int| 0 <= k < acc.len() ==> is_percent_name_from(t, p0, #[trigger] acc[k]),
    ensures
        operands_spec(t, p, acc).0 matches Ok(v) ==> forall|k: int|
            0 <= k < v.len() ==> is_percent_name_from(t, p0, #[trigger] v[k]),
    decreases t.len() - p,
{
    match tok_at(t, p) {
        Some(TokView::PercentIdent(s)) => {
            let acc2 = acc.push(s);
            assert forall|k: int| 0 <= k < acc2.len() implies is_percent_name_from(
                t,
                p0,
                #[trigger] acc2[k],
            ) by {
                if k == acc.len() {
                    assert(t[p] == TokView::PercentIdent(s));
                } else {
                    assert(acc2[k] == acc[k]);
                }
            }
            lemma_operands_are_names(t, p + 1, acc2, p0);
        },
        Some(TokView::Comma) => lemma_operands_are_names(t, p + 1, acc, p0),
        Some(TokView::LParen) => lemma_operands_are_names(t, p + 1, acc, p0),
        Some(TokView::RParen) => lemma_operands_are_names(t, p + 1, acc, p0),
        Some(TokView::Ident(s)) => if s == "init"@ {
            lemma_operands_are_names(t, p + 1, acc, p0);
        },
        _ => {},
    }
}

/// Every operand of a parsed operation, and its result name, is the text of
/// a `%name` token of the line.
pub proof fn law_operands_are_percent_names(src: Seq<char>, t: Seq<TokView>, p: int)
    requires
        0 <= p,
        parse_operation_spec(src, t, p) is Parsed,
    ensures
        ({
            let op = parse_operation_spec(src, t, p)->Parsed_0;
            &&& is_percent_name_from(t, p, op.result_name)
            &&& forall|k: int|
                0 <= k < op.operands.len() ==> is_percent_name_from(t, p, #[trigger] op.operands[k])
        }),
{
    let (r1, p1) = expect_percent_ident_spec(t, p);
    let (r2, p2) = expect_spec(t, p1, TokView::Eq);
    let (r3, p3) = expect_ident_spec(t, p2);
    assert(t[p] == TokView::PercentIdent(r1->Ok_0));
    lemma_operands_are_names(t, p3, Seq::empty(), p);
}

/// Every operand of an operation parsed from a lexed line, and its result
/// name, starts with `%`; so does the operand of a parsed `return`.
pub proof fn law_lexed_operands_start_with_percent(line: Seq<char>)
    requires
        tokens_of(line) is Some,
    ensures
        ({
            let t = tokens_of(line)->0;
            &&& parse_operation_spec(line, t, 0) matches OpOutcome::Parsed(op, _) ==> {
                &&& op.result_name.len() >= 1 && op.result_name[0] == '%'
                &&& forall|k: int|
                    0 <= k < op.operands.len() ==> (#[trigger] op.operands[k]).len() >= 1
                        && op.operands[k][0] == '%'
            }
            &&& parse_return_spec(t, 0).0 matches Ok(ret) ==> ret.operands[0].len() >= 1
                && ret.operands[0][0] == '%'
        }),
{
    let t = tokens_of(line)->0;
    law_tokens_well_formed(line, 0);
    if parse_operation_spec(line, t, 0) is Parsed {
        law_operands_are_percent_names(line, t, 0);
        let op = parse_operation_spec(line, t, 0)->Parsed_0;
        let q = choose|q: int| 0 <= q < t.len() && t[q] == TokView::PercentIdent(op.result_name);
        assert(well_formed_token(t[q]));
        assert forall|k: int| 0 <= k < op.operands.len() implies (#[trigger] op.operands[k]).len()
            >= 1 && op.operands[k][0] == '%' by {
            let q = choose|q: int|
                0 <= q < t.len() && t[q] == TokView::PercentIdent(op.operands[k]);
            assert(well_formed_token(t[q]));
        }
    }
    lemma_return_scan_name(t, 0);
    let ret = return_scan(t, 0).0;
    if ret.len() > 0 {
        let q = choose|q: int| 0 <= q < t.len() && t[q] == TokView::PercentIdent(ret);
        assert(well_formed_token(t[q]));
    }
}

proof fn lemma_return_scan_name(t: Seq<TokView>, p: int)
    requires
        0 <= p,
    ensures
        return_scan(t, p).0.len() > 0 ==> is_percent_name_from(t, p, return_scan(t, p).0),
    decreases t.len() - p,
{
    if p < t.len() {
        match t[p] {
            TokView::PercentIdent(s) => {},
            _ => lemma_return_scan_name(t, p + 1),
        }
    }
}

/// Whether an operand list passes over the token `x`: a `%name`, `,`, `(`,
/// `)` or `init`.
pub open spec fn operand_token(x: TokView) -> bool {
    ||| x is PercentIdent
    ||| x is Comma
    ||| x is LParen
    ||| x is RParen
    ||| x == TokView::Ident("init"@)
}

/// Whether an operand list ends at the token `x`: a `:` or an attribute name.
pub open spec fn stops_operands(x: TokView) -> bool {
    match x {
        TokView::Colon => true,
        TokView::Ident(s) => ends_operands(s),
        _ => false,
    }
}

/// The first index at or after `i` whose token an operand list does not pass
/// over (the end of the line where there is none).
pub open spec fn operand_scan_end(t: Seq<TokView>, i: int) -> int
    decreases t.len() - i,
{
    if i < 0 || i >= t.len() || !operand_token(t[i]) {
        i
    } else {
        operand_scan_end(t, i + 1)
    }
}

/// The texts of the `%name` tokens from index `lo` up to `hi`, in order.
pub open spec fn percent_names(t: Seq<TokView>, lo: int, hi: int) -> Seq<Seq<char>>
    decreases hi - lo,
{
    if lo < 0 || lo >= hi || lo >= t.len() {
        Seq::empty()
    } else {
        let rest = percent_names(t, lo + 1, hi);
        match t[lo] {
            TokView::PercentIdent(s) => seq![s] + rest,
            _ => rest,
        }
    }
}

proof fn lemma_operands_scan(t: Seq<TokView>, p: int, acc: Seq<Seq<char>>)
    requires
        0 <= p,
    ensures
        operands_spec(t, p, acc).0 matches Ok(v) ==> {
            let e = operand_scan_end(t, p);
            &&& p <= e < t.len()
            &&& stops_operands(t[e])
            &&& v == acc + percent_names(t, p, e)
        },
    decreases t.len() - p,
{
    reveal_strlit("init");
    reveal_strlit("dim");
    reveal_strlit("dims");
    reveal_strlit("dim_numbers");
    reveal_strlit("apply");
    reveal_strlit("dense");
    if p < t.len() {
        match t[p] {
            TokView::PercentIdent(s) => {
                lemma_operands_scan(t, p + 1, acc.push(s));
                let e = operand_scan_end(t, p + 1);
                assert(acc.push(s) + percent_names(t, p + 1, e) =~= acc + (seq![s]
                    + percent_names(t, p + 1, e)));
            },
            TokView::Comma => lemma_operands_scan(t, p + 1, acc),
            TokView::LParen => lemma_operands_scan(t, p + 1, acc),
            TokView::RParen => lemma_operands_scan(t, p + 1, acc),
            TokView::Ident(s) => {
                if s == "init"@ {
                    lemma_operands_scan(t, p + 1, acc);
                } else if ends_operands(s) {
                    assert(acc + percent_names(t, p, p) =~= acc);
                }
            },
            TokView::Colon => {
                assert(acc + percent_names(t, p, p) =~= acc);
            },
            _ => {},
        }
    }
}

proof fn lemma_attrs_stop(t: Seq<TokView>, p: int, m: Map<Seq<char>, AttrView>)
    requires
        0 <= p,
    ensures
        attrs_spec(t, p, m).0 is Ok ==> tok_at(t, attrs_spec(t, p, m).1) is None || tok_at(
            t,
            attrs_spec(t, p, m).1,
        ) == Some(TokView::Arrow),
    decreases t.len() - p,
{
    if p < t.len() && t[p] != TokView::Arrow {
        lemma_attr_step_advances(t, p, m);
        let (r, q) = attr_step(t, p, m);
        if let Ok(m2) = r {
            lemma_attrs_stop(t, q, m2);
        }
    }
}

/// An operation parsed from index `p` is read off its tokens: its result name,
/// `=` and its name come first; its operands are the `%names` among the tokens
/// an operand list passes over, in order, up to a `:` or an attribute name; the
/// attribute scan stops at the end of the line or at a `->`, and the result
/// type is the trimmed text after the line's first `->` exactly when it stopped
/// at one. The attributes of an operation other than a convolution are of
/// the kinds that the attribute scan stores.
pub proof fn law_operation_read_off_tokens(src: Seq<char>, t: Seq<TokView>, p: int)
    requires
        0 <= p,
        parse_operation_spec(src, t, p) is Parsed,
    ensures
        ({
            let op = parse_operation_spec(src, t, p)->Parsed_0;
            let q = parse_operation_spec(src, t, p)->Parsed_1;
            let e = operand_scan_end(t, p + 3);
            &&& p + 3 <= e < t.len()
            &&& t[p] == TokView::PercentIdent(op.result_name)
            &&& t[p + 1] == TokView::Eq
            &&& t[p + 2] == TokView::Ident(op.name)
            &&& stops_operands(t[e])
            &&& op.operands == percent_names(t, p + 3, e)
            &&& tok_at(t, q) is None || tok_at(t, q) == Some(TokView::Arrow)
            &&& op.result_type_src == if tok_at(t, q) == Some(TokView::Arrow) {
                match find(src, "->"@) {
                    Some(k) => trim(src.subrange(k + 2, src.len() as int)),
                    None => Seq::<char>::empty(),
                }
            } else {
                Seq::<char>::empty()
            }
            &&& op.name != "stablehlo.convolution"@ ==> token_attrs(op.attributes)
        }),
{
    lemma_operands_scan(t, p + 3, Seq::empty());
    let (r4, p4) = operands_spec(t, p + 3, Seq::empty());
    let v = r4->Ok_0;
    assert(Seq::<Seq<char>>::empty() + percent_names(t, p + 3, operand_scan_end(t, p + 3))
        =~= percent_names(t, p + 3, operand_scan_end(t, p + 3)));
    lemma_operands_pos(t, p + 3, Seq::empty());
    lemma_attrs_stop(t, p4, Map::empty());
    law_attrs_scan_kinds(t, p4, Map::empty());
}

proof fn lemma_operands_pos(t: Seq<TokView>, p: int, acc: Seq<Seq<char>>)
    requires
        0 <= p,
    ensures
        p <= operands_spec(t, p, acc).1,
    decreases t.len() - p,
{
    if p < t.len() {
        match t[p] {
            TokView::PercentIdent(s) => lemma_operands_pos(t, p + 1, acc.push(s)),
            TokView::Comma => lemma_operands_pos(t, p + 1, acc),
            TokView::LParen => lemma_operands_pos(t, p + 1, acc),
            TokView::RParen => lemma_operands_pos(t, p + 1, acc),
            TokView::Ident(s) => if s == "init"@ {
                lemma_operands_pos(t, p + 1, acc);
            },
            _ => {},
        }
    }
}

/// The first index at or after `i` whose token is neither an integer nor a
/// `,` (the end of the line where there is none).
pub open spec fn intvec_scan_end(t: Seq<TokView>, i: int) -> int
    decreases t.len() - i,
{
    if i < 0 || i >= t.len() || !(t[i] is Integer || t[i] is Comma) {
        i
    } else {
        intvec_scan_end(t, i + 1)
    }
}

/// The integer tokens from index `lo` up to `hi`, each taken `as usize`, in
/// order.
pub open spec fn int_items(t: Seq<TokView>, lo: int, hi: int) -> Seq<usize>
    decreases hi - lo,
{
    if lo < 0 || lo >= hi || lo >= t.len() {
        Seq::empty()
    } else {
        let rest = int_items(t, lo + 1, hi);
        match t[lo] {
            TokView::Integer(i) => seq![i as usize] + rest,
            _ => rest,
        }
    }
}

proof fn lemma_intvec_scan_end_bounds(t: Seq<TokView>, i: int)
    requires
        0 <= i,
    ensures
        i <= intvec_scan_end(t, i),
    decreases t.len() - i,
{
    if i < t.len() && (t[i] is Integer || t[i] is Comma) {
        lemma_intvec_scan_end_bounds(t, i + 1);
    }
}

proof fn lemma_intvec_items_scan(t: Seq<TokView>, i: int, acc: Seq<usize>)
    requires
        0 <= i,
    ensures
        ({
            let e = intvec_scan_end(t, i);
            let (r, q) = intvec_items_spec(t, i, acc);
            &&& r is Ok <==> tok_at(t, e) == Some(TokView::RBracket)
            &&& r matches Ok(v) ==> v == acc + int_items(t, i, e) && q == e + 1
        }),
    decreases t.len() - i,
{
    if i < t.len() {
        match t[i] {
            TokView::Integer(x) => {
                lemma_intvec_items_scan(t, i + 1, acc.push(x as usize));
                lemma_intvec_scan_end_bounds(t, i + 1);
                let e = intvec_scan_end(t, i + 1);
                assert(acc.push(x as usize) + int_items(t, i + 1, e) =~= acc + (seq![x as usize]
                    + int_items(t, i + 1, e)));
            },
            TokView::Comma => {
                lemma_intvec_items_scan(t, i + 1, acc);
                lemma_intvec_scan_end_bounds(t, i + 1);
            },
            _ => {
                assert(acc + int_items(t, i, i) =~= acc);
            },
        }
    }
}

/// An integer list reads successfully exactly when its first token is `[` and
/// the first token after it that is neither an integer nor a `,` is `]`; it
/// then gives the integers between them, each taken `as usize`, in order, and
/// stops after the `]`.
pub proof fn law_intvec_read_off_tokens(t: Seq<TokView>, p: int)
    requires
        0 <= p,
    ensures
        ({
            let e = intvec_scan_end(t, p + 1);
            let (r, q) = parse_intvec_spec(t, p);
            &&& r is Ok <==> tok_at(t, p) == Some(TokView::LBracket) && tok_at(t, e) == Some(
                TokView::RBracket,
            )
            &&& r matches Ok(v) ==> v == int_items(t, p + 1, e) && q == e + 1
        }),
{
    lemma_intvec_items_scan(t, p + 1, Seq::empty());
    assert(Seq::<usize>::empty() + int_items(t, p + 1, intvec_scan_end(t, p + 1)) =~= int_items(
        t,
        p + 1,
        intvec_scan_end(t, p + 1),
    ));
}

/// The kind of value that the attribute scan stores under each name: an
/// integer list under `dims` and `dimensions`, an integer under `dim`, a
/// function name under `apply`, and a floating-point literal under `dense`.
pub open spec fn token_attr_kind(k: Seq<char>, v: AttrView) -> bool {
    ||| k == "dims"@ && v is IntVec
    ||| k == "dimensions"@ && v is IntVec
    ||| k == "dim"@ && v is Int
    ||| k == "apply"@ && v is Id
    ||| k == "dense"@ && v is Float
}

/// Every entry of `m` is of the kind the attribute scan stores.
pub open spec fn token_attrs(m: Map<Seq<char>, AttrView>) -> bool {
    forall|k: Seq<char>| m.dom().contains(k) ==> token_attr_kind(k, #[trigger] m[k])
}

proof fn lemma_attr_step_kinds(t: Seq<TokView>, p: int, m: Map<Seq<char>, AttrView>)
    requires
        0 <= p < t.len(),
        token_attrs(m),
    ensures
        attr_step(t, p, m).0 matches Ok(m2) ==> token_attrs(m2),
{
}

/// The attribute scan stores only these entries: `dims = [..]` and the list
/// after `applies .. across dimensions =` as integer lists, `dim = n` as an
/// integer, the function named after `applies` under `apply`, and a
/// floating-point literal after `dense<` under `dense`; what it started with
/// of those kinds stays of them.
pub proof fn law_attrs_scan_kinds(t: Seq<TokView>, p: int, m: Map<Seq<char>, AttrView>)
    requires
        0 <= p,
        token_attrs(m),
    ensures
        attrs_spec(t, p, m).0 matches Ok(m2) ==> token_attrs(m2),
    decreases t.len() - p,
{
    if p < t.len() && t[p] != TokView::Arrow {
        lemma_attr_step_advances(t, p, m);
        lemma_attr_step_kinds(t, p, m);
        let (r, q) = attr_step(t, p, m);
        if let Ok(m2) = r {
            law_attrs_scan_kinds(t, q, m2);
        }
    }
}

/// An operation line fails to parse where its tokens do not begin with a
/// `%name`, `=` and a name, or where the operand list that follows meets the
/// end of the line or a token that neither it passes over nor ends it at.
pub proof fn law_operation_fails_on_bad_start(src: Seq<char>, t: Seq<TokView>, p: int)
    requires
        0 <= p,
        !(tok_at(t, p) matches Some(TokView::PercentIdent(_))) || tok_at(t, p + 1) != Some(
            TokView::Eq,
        ) || !(tok_at(t, p + 2) matches Some(TokView::Ident(_))) || !(operand_scan_end(t, p + 3)
            < t.len() && stops_operands(t[operand_scan_end(t, p + 3)])),
    ensures
        parse_operation_spec(src, t, p) is Failed,
{
    lemma_operands_scan(t, p + 3, Seq::empty());
}

} // verus!
