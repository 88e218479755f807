//! The lexer for single lines of StableHLO text.
use vstd::prelude::*;

use crate::text::{
    all_digits,
    char_is_ascii_digit,
    chars_of,
    decimal_upto,
    decimal_value,
    is_ascii_digit,
    lemma_decimal_nonneg,
};

verus! {

broadcast use vstd::string::group_string_axioms;

/// A token of a StableHLO line.
#[derive(Debug, PartialEq)]
pub enum Tok {
    PercentIdent(String),
    Ident(String),
    Integer(i64),
    /// A floating-point literal, kept as it is written in the source.
    Float(String),
    LParen,
    RParen,
    LBracket,
    RBracket,
    LBrace,
    RBrace,
    Comma,
    Colon,
    Eq,
    Less,
    Greater,
    Arrow,
}

/// The mathematical view of a token: text as characters, integers as `int`.
pub enum TokView {
    PercentIdent(Seq<char>),
    Ident(Seq<char>),
    Integer(int),
    Float(Seq<char>),
    LParen,
    RParen,
    LBracket,
    RBracket,
    LBrace,
    RBrace,
    Comma,
    Colon,
    Eq,
    Less,
    Greater,
    Arrow,
}

impl View for Tok {
    type V = TokView;

    open spec fn view(&self) -> TokView {
        match self {
            Tok::PercentIdent(s) => TokView::PercentIdent(s@),
            Tok::Ident(s) => TokView::Ident(s@),
            Tok::Integer(i) => TokView::Integer(*i as int),
            Tok::Float(s) => TokView::Float(s@),
            Tok::LParen => TokView::LParen,
            Tok::RParen => TokView::RParen,
            Tok::LBracket => TokView::LBracket,
            Tok::RBracket => TokView::RBracket,
            Tok::LBrace => TokView::LBrace,
            Tok::RBrace => TokView::RBrace,
            Tok::Comma => TokView::Comma,
            Tok::Colon => TokView::Colon,
            Tok::Eq => TokView::Eq,
            Tok::Less => TokView::Less,
            Tok::Greater => TokView::Greater,
            Tok::Arrow => TokView::Arrow,
        }
    }
}

impl Clone for Tok {
    fn clone(&self) -> (r: Self)
        ensures
            r == *self,
    {
        match self {
            Tok::PercentIdent(s) => Tok::PercentIdent(s.clone()),
            Tok::Ident(s) => Tok::Ident(s.clone()),
            Tok::Integer(i) => Tok::Integer(*i),
            Tok::Float(s) => Tok::Float(s.clone()),
            Tok::LParen => Tok::LParen,
            Tok::RParen => Tok::RParen,
            Tok::LBracket => Tok::LBracket,
            Tok::RBracket => Tok::RBracket,
            Tok::LBrace => Tok::LBrace,
            Tok::RBrace => Tok::RBrace,
            Tok::Comma => Tok::Comma,
            Tok::Colon => Tok::Colon,
            Tok::Eq => Tok::Eq,
            Tok::Less => Tok::Less,
            Tok::Greater => Tok::Greater,
            Tok::Arrow => Tok::Arrow,
        }
    }
}

/// The views of a sequence of tokens.
pub open spec fn views(toks: Seq<Tok>) -> Seq<TokView> {
    toks.map_values(|t: Tok| t@)
}

/// The classes of characters that the lexer consumes in runs.
#[derive(Clone, Copy, PartialEq, Eq, Structural)]
pub enum CharClass {
    /// ASCII whitespace (`u8::is_ascii_whitespace`).
    Space,
    /// ASCII digits.
    Digit,
    /// Characters of a `%name`: ASCII letters, digits, `_` and `.`.
    Name,
    /// Characters of an identifier: those of a name, and `-` and `@`.
    IdentChar,
}

pub open spec fn is_ascii_space(c: char) -> bool {
    c == ' ' || c == '\t' || c == '\n' || c == '\u{c}' || c == '\r'
}

pub open spec fn is_name_char(c: char) -> bool {
    ||| ('a' <= c && c <= 'z')
    ||| ('A' <= c && c <= 'Z')
    ||| is_ascii_digit(c)
    ||| c == '_'
    ||| c == '.'
}

pub open spec fn in_class(c: char, k: CharClass) -> bool {
    match k {
        CharClass::Space => is_ascii_space(c),
        CharClass::Digit => is_ascii_digit(c),
        CharClass::Name => is_name_char(c),
        CharClass::IdentChar => is_name_char(c) || c == '-' || c == '@',
    }
}

/// The end of the run of characters of class `k` that starts at `i`.
pub open spec fn run_end(cs: Seq<char>, i: int, k: CharClass) -> int
    decreases cs.len() - i,
{
    if 0 <= i < cs.len() && in_class(cs[i], k) {
        run_end(cs, i + 1, k)
    } else {
        i
    }
}

pub proof fn lemma_run_end(cs: Seq<char>, i: int, k: CharClass)
    requires
        0 <= i <= cs.len(),
    ensures
        i <= run_end(cs, i, k) <= cs.len(),
        forall|m: int| i <= m < run_end(cs, i, k) ==> in_class(#[trigger] cs[m], k),
        run_end(cs, i, k) == cs.len() || !in_class(cs[run_end(cs, i, k)], k),
    decreases cs.len() - i,
{
    if i < cs.len() && in_class(cs[i], k) {
        lemma_run_end(cs, i + 1, k);
    }
}

/// The single-character token that `c` stands for, if any.
pub open spec fn punct_view(c: char) -> Option<TokView> {
    if c == '(' {
        Some(TokView::LParen)
    } else if c == ')' {
        Some(TokView::RParen)
    } else if c == '[' {
        Some(TokView::LBracket)
    } else if c == ']' {
        Some(TokView::RBracket)
    } else if c == '{' {
        Some(TokView::LBrace)
    } else if c == '}' {
        Some(TokView::RBrace)
    } else if c == ',' {
        Some(TokView::Comma)
    } else if c == ':' {
        Some(TokView::Colon)
    } else if c == '=' {
        Some(TokView::Eq)
    } else if c == '<' {
        Some(TokView::Less)
    } else if c == '>' {
        Some(TokView::Greater)
    } else {
        None
    }
}

/// End of the integer part of a number starting at `i`.
pub open spec fn int_part_end(cs: Seq<char>, i: int) -> int {
    run_end(cs, i, CharClass::Digit)
}

pub open spec fn has_fraction(cs: Seq<char>, i: int) -> bool {
    let j = int_part_end(cs, i);
    j < cs.len() && cs[j] == '.'
}

/// End of the mantissa (integer part and fraction) of a number starting at `i`.
pub open spec fn mantissa_end(cs: Seq<char>, i: int) -> int {
    if has_fraction(cs, i) {
        run_end(cs, int_part_end(cs, i) + 1, CharClass::Digit)
    } else {
        int_part_end(cs, i)
    }
}

pub open spec fn has_exponent(cs: Seq<char>, i: int) -> bool {
    let j = mantissa_end(cs, i);
    j < cs.len() && (cs[j] == 'e' || cs[j] == 'E')
}

/// Where the digits of the exponent of a number starting at `i` begin.
pub open spec fn exponent_digits_start(cs: Seq<char>, i: int) -> int {
    let k = mantissa_end(cs, i) + 1;
    if k < cs.len() && (cs[k] == '+' || cs[k] == '-') {
        k + 1
    } else {
        k
    }
}

/// End of a number starting at `i`.
pub open spec fn number_end(cs: Seq<char>, i: int) -> int {
    if has_exponent(cs, i) {
        run_end(cs, exponent_digits_start(cs, i), CharClass::Digit)
    } else {
        mantissa_end(cs, i)
    }
}

/// One step of the lexer at index `i`.
pub enum LexStep {
    /// Whitespace up to the given index is skipped.
    Skip(int),
    /// A token is read; the next one starts at the given index.
    Emit(TokView, int),
    /// The lexer cannot go on: it would never finish (a character that starts
    /// no token), or panic (an integer beyond `i64`, or a floating-point literal
    /// whose exponent has no digits, which `f64` parsing refuses).
    Stuck,
}

/// The step for a number starting at `i`.
pub open spec fn number_step(cs: Seq<char>, i: int) -> LexStep {
    let e = number_end(cs, i);
    let text = cs.subrange(i, e);
    if has_exponent(cs, i) && e == exponent_digits_start(cs, i) {
        LexStep::Stuck
    } else if has_fraction(cs, i) || has_exponent(cs, i) {
        LexStep::Emit(TokView::Float(text), e)
    } else if decimal_value(text) <= i64::MAX {
        LexStep::Emit(TokView::Integer(decimal_value(text)), e)
    } else {
        LexStep::Stuck
    }
}

/// The step of the lexer at index `i` of `cs`.
pub open spec fn lex_step(cs: Seq<char>, i: int) -> LexStep {
    let c = cs[i];
    if is_ascii_space(c) {
        LexStep::Skip(run_end(cs, i, CharClass::Space))
    } else if punct_view(c) is Some {
        LexStep::Emit(punct_view(c)->0, i + 1)
    } else if c == '-' && i + 1 < cs.len() && cs[i + 1] == '>' {
        LexStep::Emit(TokView::Arrow, i + 2)
    } else if c == '%' {
        let j = run_end(cs, i + 1, CharClass::Name);
        LexStep::Emit(TokView::PercentIdent(seq!['%'] + cs.subrange(i + 1, j)), j)
    } else if is_ascii_digit(c) {
        number_step(cs, i)
    } else {
        let j = run_end(cs, i, CharClass::IdentChar);
        if j == i {
            LexStep::Stuck
        } else {
            LexStep::Emit(TokView::Ident(cs.subrange(i, j)), j)
        }
    }
}

pub proof fn lemma_number_bounds(cs: Seq<char>, i: int)
    requires
        0 <= i < cs.len(),
        is_ascii_digit(cs[i]),
    ensures
        i < int_part_end(cs, i) <= mantissa_end(cs, i) <= number_end(cs, i) <= cs.len(),
        has_exponent(cs, i) ==> mantissa_end(cs, i) < exponent_digits_start(cs, i) <= number_end(
            cs,
            i,
        ),
{
    lemma_run_end(cs, i, CharClass::Digit);
    lemma_run_end(cs, i + 1, CharClass::Digit);
    let j = int_part_end(cs, i);
    if has_fraction(cs, i) {
        lemma_run_end(cs, j + 1, CharClass::Digit);
    }
    if has_exponent(cs, i) {
        lemma_run_end(cs, exponent_digits_start(cs, i), CharClass::Digit);
    }
}

/// The integer part of a number is all digits.
pub proof fn lemma_number_digits(cs: Seq<char>, i: int)
    requires
        0 <= i < cs.len(),
        is_ascii_digit(cs[i]),
    ensures
        all_digits(cs.subrange(i, int_part_end(cs, i))),
{
    lemma_run_end(cs, i, CharClass::Digit);
    assert forall|m: int| 0 <= m < int_part_end(cs, i) - i implies is_ascii_digit(
        #[trigger] cs.subrange(i, int_part_end(cs, i))[m],
    ) by {
        assert(cs.subrange(i, int_part_end(cs, i))[m] == cs[i + m]);
        assert(in_class(cs[i + m], CharClass::Digit));
    }
}

/// Every step that is not stuck moves forward.
pub proof fn lemma_lex_step_advances(cs: Seq<char>, i: int)
    requires
        0 <= i < cs.len(),
    ensures
        match lex_step(cs, i) {
            LexStep::Skip(j) => i < j <= cs.len(),
            LexStep::Emit(_, j) => i < j <= cs.len(),
            LexStep::Stuck => true,
        },
{
    lemma_run_end(cs, i, CharClass::Space);
    lemma_run_end(cs, i, CharClass::IdentChar);
    lemma_run_end(cs, i + 1, CharClass::Name);
    if is_ascii_digit(cs[i]) {
        lemma_number_bounds(cs, i);
    }
}

/// The tokens of `cs` from index `i` on, or `None` where the lexer gets stuck.
pub open spec fn lex_from(cs: Seq<char>, i: int) -> Option<Seq<TokView>>
    decreases cs.len() - i,
{
    if i < 0 || i >= cs.len() {
        Some(Seq::empty())
    } else {
        proof {
            lemma_lex_step_advances(cs, i);
        }
        match lex_step(cs, i) {
            LexStep::Skip(j) => lex_from(cs, j),
            LexStep::Emit(t, j) => prepend(seq![t], lex_from(cs, j)),
            LexStep::Stuck => None,
        }
    }
}

/// `p` put in front of the tokens of `o`, if there are any.
pub open spec fn prepend(p: Seq<TokView>, o: Option<Seq<TokView>>) -> Option<Seq<TokView>> {
    match o {
        Some(r) => Some(p + r),
        None => None,
    }
}

/// The tokens of a whole line.
pub open spec fn tokens_of(s: Seq<char>) -> Option<Seq<TokView>> {
    lex_from(s, 0)
}

proof fn lemma_prepend_assoc(a: Seq<TokView>, b: Seq<TokView>, o: Option<Seq<TokView>>)
    ensures
        prepend(a, prepend(b, o)) == prepend(a + b, o),
{
    if let Some(r) = o {
        assert(a + (b + r) =~= (a + b) + r);
    }
}

proof fn lemma_views_push(toks: Seq<Tok>, t: Tok)
    ensures
        views(toks.push(t)) == views(toks).push(t@),
{
    assert(views(toks.push(t)) =~= views(toks).push(t@));
}

/// A lexer over one line of text.
pub struct Lexer<'a> {
    s: &'a str,
    i: usize,
    chars: Vec<char>,
}

impl<'a> Lexer<'a> {
    #[verifier::type_invariant]
    spec fn well_formed(self) -> bool {
        self.chars@ == self.s@ && self.i <= self.chars@.len()
    }

    /// The text being read.
    pub closed spec fn text(self) -> Seq<char> {
        self.s@
    }

    /// The index of the next character to read.
    pub closed spec fn pos(self) -> int {
        self.i as int
    }

    pub fn new(s: &'a str) -> (r: Self)
        ensures
            r.text() == s@,
            r.pos() == 0,
    {
        Self { s, i: 0, chars: chars_of(s) }
    }

    /// The next character, if any.
    pub fn peek(&self) -> (r: Option<char>)
        ensures
            r == (if self.pos() < self.text().len() {
                Some(self.text()[self.pos()])
            } else {
                None
            }),
    {
        proof {
            use_type_invariant(self);
        }
        if self.i < self.chars.len() {
            Some(self.chars[self.i])
        } else {
            None
        }
    }

    /// Reads the next character, if any.
    pub fn bump(&mut self) -> (r: Option<char>)
        ensures
            final(self).text() == old(self).text(),
            r == (if old(self).pos() < old(self).text().len() {
                Some(old(self).text()[old(self).pos()])
            } else {
                None
            }),
            final(self).pos() == (if old(self).pos() < old(self).text().len() {
                old(self).pos() + 1
            } else {
                old(self).pos()
            }),
    {
        proof {
            use_type_invariant(&*self);
        }
        match self.peek() {
            Some(b) => {
                assert(self.i < self.chars.len());
                self.i = self.i + 1;
                Some(b)
            },
            None => None,
        }
    }

    /// Reads the run of characters of class `k` at the position, and returns it.
    pub fn eat_while(&mut self, k: CharClass) -> (r: &'a str)
        ensures
            final(self).text() == old(self).text(),
            final(self).pos() == run_end(old(self).text(), old(self).pos(), k),
            r@ == old(self).text().subrange(old(self).pos(), final(self).pos()),
    {
        proof {
            use_type_invariant(&*self);
            lemma_run_end(self.chars@, self.i as int, k);
        }
        let start = self.i;
        let mut j = self.i;
        while j < self.chars.len() && class_contains(k, self.chars[j])
            invariant
                start <= j <= self.chars.len(),
                run_end(self.chars@, start as int, k) == run_end(self.chars@, j as int, k),
            decreases self.chars.len() - j,
        {
            j = j + 1;
        }
        self.i = j;
        self.s.substring_char(start, j)
    }

    /// Skips the ASCII whitespace at the position.
    pub fn skip_ws(&mut self)
        ensures
            final(self).text() == old(self).text(),
            final(self).pos() == run_end(old(self).text(), old(self).pos(), CharClass::Space),
    {
        self.eat_while(CharClass::Space);
    }

    /// Reads an identifier at the position.
    pub fn lex_ident(&mut self) -> (r: String)
        ensures
            final(self).text() == old(self).text(),
            final(self).pos() == run_end(old(self).text(), old(self).pos(), CharClass::IdentChar),
            r@ == old(self).text().subrange(old(self).pos(), final(self).pos()),
    {
        let s = self.eat_while(CharClass::IdentChar);
        s.to_owned()
    }

    /// The end of the run of characters of class `k` that starts at `i`.
    fn run_end_at(&self, i: usize, k: CharClass) -> (r: usize)
        requires
            i <= self.text().len(),
        ensures
            r == run_end(self.text(), i as int, k),
    {
        proof {
            use_type_invariant(self);
        }
        let mut j = i;
        while j < self.chars.len() && class_contains(k, self.chars[j])
            invariant
                i <= j <= self.chars.len(),
                run_end(self.chars@, i as int, k) == run_end(self.chars@, j as int, k),
            decreases self.chars.len() - j,
        {
            j = j + 1;
        }
        j
    }

    /// The shape of the number at the position: where it ends, whether it has
    /// a fraction or an exponent, and whether an exponent has digits.
    fn number_shape(&self) -> (r: (usize, bool, bool))
        requires
            self.pos() < self.text().len(),
            is_ascii_digit(self.text()[self.pos()]),
        ensures
            r.0 == number_end(self.text(), self.pos()),
            r.1 == (has_fraction(self.text(), self.pos()) || has_exponent(self.text(), self.pos())),
            r.2 == !(has_exponent(self.text(), self.pos()) && number_end(self.text(), self.pos())
                == exponent_digits_start(self.text(), self.pos())),
    {
        proof {
            use_type_invariant(self);
            lemma_number_bounds(self.chars@, self.i as int);
        }
        let j = self.run_end_at(self.i, CharClass::Digit);
        let has_frac = j < self.chars.len() && self.chars[j] == '.';
        let m = if has_frac {
            self.run_end_at(j + 1, CharClass::Digit)
        } else {
            j
        };
        let has_exp = m < self.chars.len() && (self.chars[m] == 'e' || self.chars[m] == 'E');
        if has_exp {
            let k = m + 1;
            let ds = if k < self.chars.len() && (self.chars[k] == '+' || self.chars[k] == '-') {
                k + 1
            } else {
                k
            };
            let e = self.run_end_at(ds, CharClass::Digit);
            (e, true, e != ds)
        } else {
            (m, has_frac, true)
        }
    }

    /// Whether the number at the position can be read: its exponent, if any,
    /// has digits, and an integer fits in an `i64`.
    fn number_readable(&self) -> (r: bool)
        requires
            self.pos() < self.text().len(),
            is_ascii_digit(self.text()[self.pos()]),
        ensures
            r == (number_step(self.text(), self.pos()) is Emit),
    {
        proof {
            use_type_invariant(self);
            lemma_number_bounds(self.chars@, self.i as int);
        }
        let (end, is_float, exp_ok) = self.number_shape();
        if !exp_ok {
            return false;
        }
        if is_float {
            return true;
        }
        proof {
            lemma_number_digits(self.chars@, self.i as int);
        }
        decimal_upto(&self.chars, self.i, end, i64::MAX as u64).is_some()
    }

    /// Reads the number at the position.
    fn lex_number(&mut self) -> (r: Tok)
        requires
            old(self).pos() < old(self).text().len(),
            is_ascii_digit(old(self).text()[old(self).pos()]),
            number_step(old(self).text(), old(self).pos()) is Emit,
        ensures
            final(self).text() == old(self).text(),
            match number_step(old(self).text(), old(self).pos()) {
                LexStep::Emit(t, j) => r@ == t && final(self).pos() == j,
                _ => false,
            },
    {
        proof {
            use_type_invariant(&*self);
            lemma_number_bounds(self.chars@, self.i as int);
        }
        let start = self.i;
        let (end, is_float, _) = self.number_shape();
        let text = self.s.substring_char(start, end);
        self.i = end;
        if is_float {
            Tok::Float(text.to_owned())
        } else {
            proof {
                lemma_number_digits(self.chars@, start as int);
            }
            Tok::Integer(decimal_upto(&self.chars, start, end, i64::MAX as u64).unwrap() as i64)
        }
    }

    /// Reads all tokens from the position to the end of the text, or gives
    /// `None`, and leaves the lexer as it was, where the lexer gets stuck.
    pub fn try_tokenize(&mut self) -> (r: Option<Vec<Tok>>)
        ensures
            final(self).text() == old(self).text(),
            match r {
                Some(out) => lex_from(old(self).text(), old(self).pos()) == Some(views(out@))
                    && final(self).pos() == old(self).text().len(),
                None => lex_from(old(self).text(), old(self).pos()) is None && final(self).pos()
                    == old(self).pos(),
            },
    {
        proof {
            use_type_invariant(&*self);
        }
        let ghost cs = self.chars@;
        let start = self.i;
        let mut out: Vec<Tok> = Vec::new();
        assert(views(out@) =~= Seq::<TokView>::empty());
        assert(Seq::<TokView>::empty() + lex_from(cs, start as int)->0 =~= lex_from(
            cs,
            start as int,
        )->0);
        loop
            invariant
                self.text() == cs,
                old(self).text() == cs,
                old(self).pos() == start,
                start <= self.i <= cs.len(),
                lex_from(cs, start as int) == prepend(views(out@), lex_from(cs, self.i as int)),
            ensures
                self.text() == cs,
                self.i == cs.len(),
                lex_from(cs, start as int) == prepend(views(out@), lex_from(cs, self.i as int)),
            decreases cs.len() - self.i,
        {
            proof {
                use_type_invariant(&*self);
            }
            let c = match self.peek() {
                Some(c) => c,
                None => break,
            };
            let i = self.i;
            assert(i < self.chars.len());
            proof {
                lemma_lex_step_advances(cs, i as int);
                lemma_run_end(cs, i as int, CharClass::IdentChar);
            }
            if is_space(c) {
                self.skip_ws();
                continue ;
            }
            match punct_tok(c) {
                Some(t) => {
                    self.bump();
                    proof {
                        lemma_prepend_assoc(views(out@), seq![t@], lex_from(cs, i + 1));
                        lemma_views_push(out@, t);
                    }
                    out.push(t);
                    continue ;
                },
                None => {},
            }
            let t = if c == '-' {
                if self.i + 1 < self.chars.len() && self.chars[self.i + 1] == '>' {
                    self.i = self.i + 2;
                    Tok::Arrow
                } else {
                    let ident = self.lex_ident();
                    Tok::Ident(ident)
                }
            } else if c == '%' {
                self.bump();
                let body = self.eat_while(CharClass::Name);
                let mut name = "%".to_owned();
                proof {
                    reveal_strlit("%");
                }
                name.append(body);
                assert(name@ =~= seq!['%'] + cs.subrange(i + 1, self.i as int));
                Tok::PercentIdent(name)
            } else if char_is_ascii_digit(c) {
                if !self.number_readable() {
                    self.i = start;
                    return None;
                }
                self.lex_number()
            } else {
                let ident = self.lex_ident();
                proof {
                    use_type_invariant(&*self);
                }
                if self.i == i {
                    self.i = start;
                    return None;
                }
                Tok::Ident(ident)
            };
            proof {
                lemma_prepend_assoc(views(out@), seq![t@], lex_from(cs, self.i as int));
                lemma_views_push(out@, t);
            }
            out.push(t);
        }
        proof {
            assert(views(out@) + Seq::<TokView>::empty() =~= views(out@));
        }
        Some(out)
    }

    /// Reads all tokens from the position to the end of the text.
    pub fn tokenize(&mut self) -> (r: Vec<Tok>)
        requires
            lex_from(old(self).text(), old(self).pos()) is Some,
        ensures
            final(self).text() == old(self).text(),
            lex_from(old(self).text(), old(self).pos()) == Some(views(r@)),
            final(self).pos() == old(self).text().len(),
    {
        self.try_tokenize().unwrap()
    }
}

/// Whether two tokens are the same.
pub fn same_tok(a: &Tok, b: &Tok) -> (r: bool)
    ensures
        r == (a@ == b@),
{
    match (a, b) {
        (Tok::PercentIdent(x), Tok::PercentIdent(y)) => *x == *y,
        (Tok::Ident(x), Tok::Ident(y)) => *x == *y,
        (Tok::Integer(x), Tok::Integer(y)) => *x == *y,
        (Tok::Float(x), Tok::Float(y)) => *x == *y,
        (Tok::LParen, Tok::LParen) => true,
        (Tok::RParen, Tok::RParen) => true,
        (Tok::LBracket, Tok::LBracket) => true,
        (Tok::RBracket, Tok::RBracket) => true,
        (Tok::LBrace, Tok::LBrace) => true,
        (Tok::RBrace, Tok::RBrace) => true,
        (Tok::Comma, Tok::Comma) => true,
        (Tok::Colon, Tok::Colon) => true,
        (Tok::Eq, Tok::Eq) => true,
        (Tok::Less, Tok::Less) => true,
        (Tok::Greater, Tok::Greater) => true,
        (Tok::Arrow, Tok::Arrow) => true,
        _ => false,
    }
}

/// Whether `c` belongs to class `k`.
pub fn class_contains(k: CharClass, c: char) -> (r: bool)
    ensures
        r == in_class(c, k),
{
    match k {
        CharClass::Space => is_space(c),
        CharClass::Digit => char_is_ascii_digit(c),
        CharClass::Name => is_name(c),
        CharClass::IdentChar => is_name(c) || c == '-' || c == '@',
    }
}

/// `char::is_ascii_whitespace`.
pub fn is_space(c: char) -> (r: bool)
    ensures
        r == is_ascii_space(c),
{
    c == ' ' || c == '\t' || c == '\n' || c == '\u{c}' || c == '\r'
}

fn is_name(c: char) -> (r: bool)
    ensures
        r == is_name_char(c),
{
    ('a' <= c && c <= 'z') || ('A' <= c && c <= 'Z') || ('0' <= c && c <= '9') || c == '_' || c
        == '.'
}

/// The single-character token that `c` stands for, if any.
pub fn punct_tok(c: char) -> (r: Option<Tok>)
    ensures
        match r {
            Some(t) => punct_view(c) == Some(t@),
            None => punct_view(c) is None,
        },
{
    if c == '(' {
        Some(Tok::LParen)
    } else if c == ')' {
        Some(Tok::RParen)
    } else if c == '[' {
        Some(Tok::LBracket)
    } else if c == ']' {
        Some(Tok::RBracket)
    } else if c == '{' {
        Some(Tok::LBrace)
    } else if c == '}' {
        Some(Tok::RBrace)
    } else if c == ',' {
        Some(Tok::Comma)
    } else if c == ':' {
        Some(Tok::Colon)
    } else if c == '=' {
        Some(Tok::Eq)
    } else if c == '<' {
        Some(Tok::Less)
    } else if c == '>' {
        Some(Tok::Greater)
    } else {
        None
    }
}

/// A token that the lexer can read: a `%name` starts with `%`, an identifier
/// or a floating-point literal is not empty, and an integer fits in an `i64`
/// and is not negative.
pub open spec fn well_formed_token(t: TokView) -> bool {
    match t {
        TokView::PercentIdent(s) => s.len() >= 1 && s[0] == '%' && forall|k: int|
            1 <= k < s.len() ==> in_class(#[trigger] s[k], CharClass::Name),
        TokView::Ident(s) => s.len() >= 1 && !is_ascii_digit(s[0]) && forall|k: int|
            0 <= k < s.len() ==> in_class(#[trigger] s[k], CharClass::IdentChar),
        TokView::Integer(v) => 0 <= v <= i64::MAX,
        TokView::Float(s) => s.len() >= 1 && is_ascii_digit(s[0]),
        _ => true,
    }
}

/// Every token that the lexer reads is well formed.
pub proof fn law_tokens_well_formed(cs: Seq<char>, i: int)
    requires
        lex_from(cs, i) is Some,
    ensures
        forall|k: int|
            0 <= k < lex_from(cs, i)->0.len() ==> well_formed_token(
                #[trigger] lex_from(cs, i)->0[k],
            ),
    decreases cs.len() - i,
{
    if 0 <= i < cs.len() {
        lemma_lex_step_advances(cs, i);
        match lex_step(cs, i) {
            LexStep::Skip(j) => {
                law_tokens_well_formed(cs, j);
            },
            LexStep::Emit(t, j) => {
                law_tokens_well_formed(cs, j);
                let rest = lex_from(cs, j)->0;
                assert(lex_from(cs, i)->0 == seq![t] + rest);
                assert(well_formed_token(t)) by {
                    lemma_run_end(cs, i + 1, CharClass::Name);
                    lemma_run_end(cs, i, CharClass::IdentChar);
                    if let TokView::PercentIdent(x) = t {
                        assert forall|k: int| 1 <= k < x.len() implies in_class(
                            #[trigger] x[k],
                            CharClass::Name,
                        ) by {
                            assert(x[k] == cs[i + k]);
                        }
                    }
                    if let TokView::Ident(x) = t {
                        assert forall|k: int| 0 <= k < x.len() implies in_class(
                            #[trigger] x[k],
                            CharClass::IdentChar,
                        ) by {
                            assert(x[k] == cs[i + k]);
                        }
                    }
                    if is_ascii_digit(cs[i]) {
                        lemma_number_bounds(cs, i);
                        let e = number_end(cs, i);
                        let text = cs.subrange(i, e);
                        assert(text[0] == cs[i]);
                        if !(has_fraction(cs, i) || has_exponent(cs, i)) {
                            lemma_run_end(cs, i, CharClass::Digit);
                            assert(all_digits(text)) by {
                                assert forall|m: int| 0 <= m < text.len() implies is_ascii_digit(
                                    #[trigger] text[m],
                                ) by {
                                    assert(text[m] == cs[i + m]);
                                    assert(in_class(cs[i + m], CharClass::Digit));
                                }
                            }
                            lemma_decimal_nonneg(text);
                        }
                    }
                }
                assert forall|k: int| 0 <= k < lex_from(cs, i)->0.len() implies well_formed_token(
                    #[trigger] lex_from(cs, i)->0[k],
                ) by {
                    if k > 0 {
                        assert(lex_from(cs, i)->0[k] == rest[k - 1]);
                    }
                }
            },
            LexStep::Stuck => {},
        }
    }
}

/// Whether some token, or whitespace, can start with `c`: whitespace, a
/// punctuation character, `%`, or a character of an identifier (ASCII
/// letters and digits, `_`, `.`, `-`, `@`).
pub open spec fn starts_token(c: char) -> bool {
    ||| is_ascii_space(c)
    ||| punct_view(c) is Some
    ||| c == '%'
    ||| in_class(c, CharClass::IdentChar)
}

/// The lexer is stuck at a position exactly where its character starts no
/// token, or where a number starts that cannot be read (an integer beyond
/// `i64`, or an exponent without digits).
pub proof fn law_lex_step_stuck(cs: Seq<char>, i: int)
    requires
        0 <= i < cs.len(),
    ensures
        lex_step(cs, i) is Stuck <==> !starts_token(cs[i]) || (is_ascii_digit(cs[i])
            && number_step(cs, i) is Stuck),
{
    lemma_run_end(cs, i, CharClass::IdentChar);
}

/// The first position that lexing from `i` reaches and is stuck at, if any.
pub open spec fn stuck_at(cs: Seq<char>, i: int) -> Option<int>
    decreases cs.len() - i,
{
    if i < 0 || i >= cs.len() {
        None
    } else {
        proof {
            lemma_lex_step_advances(cs, i);
        }
        match lex_step(cs, i) {
            LexStep::Skip(j) => stuck_at(cs, j),
            LexStep::Emit(_, j) => stuck_at(cs, j),
            LexStep::Stuck => Some(i),
        }
    }
}

/// Lexing from `i` fails exactly where it reaches a stuck position (a
/// character that starts no token, or a number that cannot be read); positions
/// it skips over, such as the sign of an exponent, do not count. It never gives
/// more tokens than it has characters.
pub proof fn law_lex_total_and_bounded(cs: Seq<char>, i: int)
    requires
        0 <= i <= cs.len(),
    ensures
        lex_from(cs, i) is None <==> stuck_at(cs, i) is Some,
        stuck_at(cs, i) matches Some(j) ==> i <= j < cs.len() && lex_step(cs, j) is Stuck,
        lex_from(cs, i) matches Some(t) ==> t.len() <= cs.len() - i,
    decreases cs.len() - i,
{
    if i < cs.len() {
        lemma_lex_step_advances(cs, i);
        match lex_step(cs, i) {
            LexStep::Skip(j) => {
                law_lex_total_and_bounded(cs, j);
            },
            LexStep::Emit(t, j) => {
                law_lex_total_and_bounded(cs, j);
            },
            LexStep::Stuck => {},
        }
    }
}

/// A lexer that has read its whole text reads nothing more: a second
/// `tokenize` gives no tokens.
pub proof fn law_tokenize_at_end_is_empty(cs: Seq<char>)
    ensures
        lex_from(cs, cs.len() as int) == Some(Seq::<TokView>::empty()),
{
}

/// `o1` followed by `o2`, where both are there.
pub open spec fn concat_tokens(o1: Option<Seq<TokView>>, o2: Option<Seq<TokView>>) -> Option<
    Seq<TokView>,
> {
    match (o1, o2) {
        (Some(a), Some(b)) => Some(a + b),
        _ => None,
    }
}

proof fn lemma_run_end_suffix(p: Seq<char>, s: Seq<char>, k: int, c: CharClass)
    requires
        0 <= k <= s.len(),
    ensures
        run_end(p + s, p.len() + k, c) == p.len() + run_end(s, k, c),
    decreases s.len() - k,
{
    if k < s.len() {
        assert((p + s)[p.len() + k] == s[k]);
        lemma_run_end_suffix(p, s, k + 1, c);
    }
}

/// Reading from a position of `p + s` inside `s` is reading from `s`.
proof fn lemma_lex_step_suffix(p: Seq<char>, s: Seq<char>, k: int)
    requires
        0 <= k < s.len(),
    ensures
        lex_step(p + s, p.len() + k) == match lex_step(s, k) {
            LexStep::Skip(j) => LexStep::Skip(p.len() + j),
            LexStep::Emit(t, j) => LexStep::Emit(t, p.len() + j),
            LexStep::Stuck => LexStep::Stuck,
        },
{
    let n = p.len() as int;
    let ps = p + s;
    assert forall|m: int| 0 <= m < s.len() implies #[trigger] ps[n + m] == s[m] by {}
    lemma_run_end_suffix(p, s, k, CharClass::Space);
    lemma_run_end_suffix(p, s, k, CharClass::IdentChar);
    lemma_run_end_suffix(p, s, k + 1, CharClass::Name);
    lemma_run_end_suffix(p, s, k, CharClass::Digit);
    lemma_run_end(s, k, CharClass::Space);
    lemma_run_end(s, k, CharClass::IdentChar);
    lemma_run_end(s, k + 1, CharClass::Name);
    assert(ps.subrange(n + k + 1, n + run_end(s, k + 1, CharClass::Name)) =~= s.subrange(
        k + 1,
        run_end(s, k + 1, CharClass::Name),
    ));
    assert(ps.subrange(n + k, n + run_end(s, k, CharClass::IdentChar)) =~= s.subrange(
        k,
        run_end(s, k, CharClass::IdentChar),
    ));
    if is_ascii_digit(s[k]) {
        lemma_number_bounds(s, k);
        let j = int_part_end(s, k);
        if j + 1 <= s.len() {
            lemma_run_end_suffix(p, s, j + 1, CharClass::Digit);
        }
        let m = mantissa_end(s, k);
        if has_exponent(s, k) {
            lemma_run_end_suffix(p, s, exponent_digits_start(s, k), CharClass::Digit);
        }
        assert(int_part_end(ps, n + k) == n + int_part_end(s, k));
        assert(has_fraction(ps, n + k) == has_fraction(s, k));
        assert(mantissa_end(ps, n + k) == n + mantissa_end(s, k));
        assert(has_exponent(ps, n + k) == has_exponent(s, k));
        assert(exponent_digits_start(ps, n + k) == n + exponent_digits_start(s, k));
        assert(number_end(ps, n + k) == n + number_end(s, k));
        assert(ps.subrange(n + k, n + number_end(s, k)) =~= s.subrange(k, number_end(s, k)));
    }
}

/// Reading from a position of `p + s` inside `s` is reading from `s`.
proof fn lemma_lex_from_suffix(p: Seq<char>, s: Seq<char>, k: int)
    requires
        0 <= k <= s.len(),
    ensures
        lex_from(p + s, p.len() + k) == lex_from(s, k),
    decreases s.len() - k,
{
    if k < s.len() {
        lemma_lex_step_suffix(p, s, k);
        lemma_lex_step_advances(s, k);
        match lex_step(s, k) {
            LexStep::Skip(j) => lemma_lex_from_suffix(p, s, j),
            LexStep::Emit(_, j) => lemma_lex_from_suffix(p, s, j),
            LexStep::Stuck => {},
        }
    }
}

/// A run in `s` that starts in the part that `s` shares with `s1` ends where it
/// ends in `s1`, when it ends inside `s1` or the character after `s1` ends it.
proof fn lemma_run_end_prefix(s1: Seq<char>, s: Seq<char>, i: int, c: CharClass)
    requires
        0 <= i <= s1.len() <= s.len(),
        forall|m: int| 0 <= m < s1.len() ==> #[trigger] s[m] == s1[m],
        run_end(s1, i, c) < s1.len() || (s1.len() < s.len() && !in_class(s[s1.len() as int], c)),
    ensures
        run_end(s, i, c) == run_end(s1, i, c),
    decreases s1.len() - i,
{
    if i < s1.len() && in_class(s1[i], c) {
        lemma_run_end_prefix(s1, s, i + 1, c);
    }
}

/// A run that passes through `m` ends where the run from `m` ends.
proof fn lemma_run_end_through(s: Seq<char>, i: int, m: int, c: CharClass)
    requires
        0 <= i <= m <= s.len(),
        forall|j: int| i <= j < m ==> in_class(#[trigger] s[j], c),
    ensures
        run_end(s, i, c) == run_end(s, m, c),
    decreases m - i,
{
    if i < m {
        lemma_run_end_through(s, i + 1, m, c);
    }
}

/// A token of `s1` is read the same in `s1 + [w] + s2`, `w` whitespace.
proof fn lemma_lex_step_prefix(s1: Seq<char>, w: char, s2: Seq<char>, i: int)
    requires
        is_ascii_space(w),
        0 <= i < s1.len(),
        !(lex_step(s1, i) is Skip),
    ensures
        lex_step(s1 + seq![w] + s2, i) == lex_step(s1, i),
{
    let s = s1 + seq![w] + s2;
    let n = s1.len() as int;
    assert(s[n] == w);
    assert forall|m: int| 0 <= m < s1.len() implies #[trigger] s[m] == s1[m] by {}
    lemma_run_end(s1, i, CharClass::IdentChar);
    lemma_run_end(s1, i + 1, CharClass::Name);
    lemma_run_end_prefix(s1, s, i, CharClass::IdentChar);
    lemma_run_end_prefix(s1, s, i + 1, CharClass::Name);
    lemma_run_end_prefix(s1, s, i, CharClass::Digit);
    assert(s.subrange(i + 1, run_end(s1, i + 1, CharClass::Name)) =~= s1.subrange(
        i + 1,
        run_end(s1, i + 1, CharClass::Name),
    ));
    assert(s.subrange(i, run_end(s1, i, CharClass::IdentChar)) =~= s1.subrange(
        i,
        run_end(s1, i, CharClass::IdentChar),
    ));
    if is_ascii_digit(s1[i]) {
        lemma_number_bounds(s1, i);
        let j = int_part_end(s1, i);
        if j + 1 <= n {
            lemma_run_end_prefix(s1, s, j + 1, CharClass::Digit);
        }
        if has_exponent(s1, i) {
            lemma_run_end_prefix(s1, s, exponent_digits_start(s1, i), CharClass::Digit);
        }
        assert(int_part_end(s, i) == int_part_end(s1, i));
        assert(has_fraction(s, i) == has_fraction(s1, i));
        assert(mantissa_end(s, i) == mantissa_end(s1, i));
        assert(has_exponent(s, i) == has_exponent(s1, i));
        if has_exponent(s1, i) {
            assert(exponent_digits_start(s, i) == exponent_digits_start(s1, i));
        }
        assert(number_end(s, i) == number_end(s1, i));
        assert(s.subrange(i, number_end(s1, i)) =~= s1.subrange(i, number_end(s1, i)));
    }
}

proof fn lemma_concat_prepend(a: Seq<TokView>, o1: Option<Seq<TokView>>, o2: Option<Seq<TokView>>)
    ensures
        concat_tokens(prepend(a, o1), o2) == prepend(a, concat_tokens(o1, o2)),
{
    if let (Some(x), Some(y)) = (o1, o2) {
        assert(a + x + y =~= a + (x + y));
    }
}

proof fn lemma_tokens_split(s1: Seq<char>, w: char, s2: Seq<char>, i: int)
    requires
        is_ascii_space(w),
        0 <= i <= s1.len(),
    ensures
        lex_from(s1 + seq![w] + s2, i) == concat_tokens(lex_from(s1, i), lex_from(s2, 0)),
    decreases s1.len() - i,
{
    let s = s1 + seq![w] + s2;
    let n = s1.len() as int;
    let p = s1 + seq![w];
    assert(s == p + s2);
    assert(s[n] == w);
    assert forall|m: int| 0 <= m < s1.len() implies #[trigger] s[m] == s1[m] by {}
    if i == n {
        // The whitespace after `s1` and at the start of `s2` is skipped.
        lemma_run_end_suffix(p, s2, 0, CharClass::Space);
        assert(run_end(s, n, CharClass::Space) == run_end(s, n + 1, CharClass::Space));
        let r2 = run_end(s2, 0, CharClass::Space);
        lemma_run_end(s2, 0, CharClass::Space);
        lemma_lex_from_suffix(p, s2, r2);
        lemma_lex_step_advances(s, n);
        assert(lex_from(s, n) == lex_from(s, n + 1 + r2));
        if r2 > 0 {
            lemma_lex_step_advances(s2, 0);
            assert(lex_from(s2, 0) == lex_from(s2, r2));
        }
        assert(lex_from(s1, n) == Some(Seq::<TokView>::empty()));
        if let Some(b) = lex_from(s2, 0) {
            assert(Seq::<TokView>::empty() + b =~= b);
        }
    } else {
        lemma_lex_step_advances(s1, i);
        match lex_step(s1, i) {
            LexStep::Skip(j) => {
                lemma_run_end(s1, i, CharClass::Space);
                if j < n {
                    lemma_run_end_prefix(s1, s, i, CharClass::Space);
                    lemma_lex_step_advances(s, i);
                    lemma_tokens_split(s1, w, s2, j);
                } else {
                    // Spaces up to the end of `s1` run on into `s2`.
                    lemma_run_end_through(s, i, n, CharClass::Space);
                    lemma_lex_step_advances(s, i);
                    lemma_lex_step_advances(s, n);
                    lemma_tokens_split(s1, w, s2, n);
                }
            },
            LexStep::Emit(t, j) => {
                lemma_lex_step_prefix(s1, w, s2, i);
                lemma_lex_step_advances(s, i);
                lemma_tokens_split(s1, w, s2, j);
                lemma_concat_prepend(seq![t], lex_from(s1, j), lex_from(s2, 0));
            },
            LexStep::Stuck => {
                lemma_lex_step_prefix(s1, w, s2, i);
                lemma_lex_step_advances(s, i);
            },
        }
    }
}

/// No token spans whitespace: the tokens of two texts joined by a whitespace
/// character are the tokens of the first followed by those of the second, and
/// the lexer gets stuck on the joined text exactly where it gets stuck on either.
pub proof fn law_tokens_split_at_whitespace(s1: Seq<char>, w: char, s2: Seq<char>)
    requires
        is_ascii_space(w),
    ensures
        tokens_of(s1 + seq![w] + s2) == concat_tokens(tokens_of(s1), tokens_of(s2)),
{
    lemma_tokens_split(s1, w, s2, 0);
}

} // verus!
