use luminal_hlo::lexer::{CharClass, Lexer, Tok};

fn id(s: &str) -> Tok {
    Tok::Ident(s.to_string())
}

fn pid(s: &str) -> Tok {
    Tok::PercentIdent(s.to_string())
}

#[test]
fn tokenize_binary_op_line() {
    let line = "%0 = stablehlo.add %arg0, %arg1 : tensor<2x3xf32>";
    let mut lx = Lexer::new(line);
    let toks = lx.tokenize();
    assert_eq!(
        toks,
        vec![
            pid("%0"),
            Tok::Eq,
            id("stablehlo.add"),
            pid("%arg0"),
            Tok::Comma,
            pid("%arg1"),
            Tok::Colon,
            id("tensor"),
            Tok::Less,
            Tok::Integer(2),
            id("x3xf32"),
            Tok::Greater,
        ]
    );
}

#[test]
fn tokenize_all_punctuation() {
    let mut lx = Lexer::new("()[]{},:=<>->");
    assert_eq!(
        lx.tokenize(),
        vec![
            Tok::LParen,
            Tok::RParen,
            Tok::LBracket,
            Tok::RBracket,
            Tok::LBrace,
            Tok::RBrace,
            Tok::Comma,
            Tok::Colon,
            Tok::Eq,
            Tok::Less,
            Tok::Greater,
            Tok::Arrow,
        ]
    );
}

#[test]
fn tokenize_numbers() {
    let mut lx = Lexer::new("12 3.5 1.000000e+00 2E-3 7. 0");
    assert_eq!(
        lx.tokenize(),
        vec![
            Tok::Integer(12),
            Tok::Float("3.5".to_string()),
            Tok::Float("1.000000e+00".to_string()),
            Tok::Float("2E-3".to_string()),
            Tok::Float("7.".to_string()),
            Tok::Integer(0),
        ]
    );
}

#[test]
fn tokenize_largest_integer() {
    let mut lx = Lexer::new("9223372036854775807");
    assert_eq!(lx.tokenize(), vec![Tok::Integer(i64::MAX)]);
}

#[test]
fn integer_beyond_i64_is_refused() {
    let mut lx = Lexer::new("%a 9223372036854775808");
    assert_eq!(lx.try_tokenize(), None);
}

#[test]
fn exponent_without_digits_is_refused() {
    let mut lx = Lexer::new("1e+");
    assert_eq!(lx.try_tokenize(), None);
    let mut lx = Lexer::new("2e x");
    assert_eq!(lx.try_tokenize(), None);
}

#[test]
fn character_that_starts_no_token_is_refused() {
    let mut lx = Lexer::new("%a + %b");
    assert_eq!(lx.try_tokenize(), None);
    let mut lx = Lexer::new("\"quoted\"");
    assert_eq!(lx.try_tokenize(), None);
    let mut lx = Lexer::new("caf\u{e9}");
    assert_eq!(lx.try_tokenize(), None);
}

#[test]
fn refused_lexer_stays_where_it_was() {
    let mut lx = Lexer::new("ab +");
    assert_eq!(lx.try_tokenize(), None);
    assert_eq!(lx.peek(), Some('a'));
}

#[test]
fn dash_without_arrow_is_an_identifier() {
    let mut lx = Lexer::new("-x a-b ->");
    assert_eq!(lx.tokenize(), vec![id("-x"), id("a-b"), Tok::Arrow]);
    let mut lx = Lexer::new("-");
    assert_eq!(lx.tokenize(), vec![id("-")]);
}

#[test]
fn percent_name_stops_at_non_name_character() {
    let mut lx = Lexer::new("%arg0.x_1@y %");
    assert_eq!(lx.tokenize(), vec![pid("%arg0.x_1"), id("@y"), pid("%")]);
}

#[test]
fn whitespace_kinds_are_skipped() {
    let mut lx = Lexer::new(" \t\r\n\u{c}a");
    assert_eq!(lx.tokenize(), vec![id("a")]);
    let mut lx = Lexer::new("");
    assert_eq!(lx.tokenize(), vec![]);
}

#[test]
fn second_tokenize_is_empty() {
    let mut lx = Lexer::new("%0 = x");
    assert_eq!(lx.tokenize().len(), 3);
    assert_eq!(lx.tokenize(), vec![]);
    assert_eq!(lx.peek(), None);
}

#[test]
fn tokens_split_at_whitespace() {
    let a = "%0 = stablehlo.add 1e5";
    let b = "-> tensor<2xf32>";
    let joined = format!("{} {}", a, b);
    let mut la = Lexer::new(a);
    let mut lb = Lexer::new(b);
    let mut lj = Lexer::new(&joined);
    let mut expected = la.tokenize();
    expected.extend(lb.tokenize());
    assert_eq!(lj.tokenize(), expected);
}

#[test]
fn tokens_are_well_formed() {
    let mut lx = Lexer::new("%x.1_y = a-b@c.d_9 12 3.0 % x12");
    for t in lx.tokenize() {
        match t {
            Tok::PercentIdent(s) => {
                assert!(s.starts_with('%'));
                assert!(s[1..].chars().all(|c| c.is_ascii_alphanumeric() || c == '_' || c == '.'));
            }
            Tok::Ident(s) => {
                assert!(!s.is_empty());
                assert!(!s.chars().next().unwrap().is_ascii_digit());
                assert!(s.chars().all(|c| c.is_ascii_alphanumeric() || "_.-@".contains(c)));
            }
            Tok::Integer(v) => assert!(v >= 0),
            Tok::Float(s) => assert!(s.chars().next().unwrap().is_ascii_digit()),
            _ => {}
        }
    }
}

#[test]
fn peek_bump_and_runs() {
    let mut lx = Lexer::new("  abc-1 x");
    assert_eq!(lx.peek(), Some(' '));
    lx.skip_ws();
    assert_eq!(lx.peek(), Some('a'));
    assert_eq!(lx.lex_ident(), "abc-1");
    assert_eq!(lx.bump(), Some(' '));
    assert_eq!(lx.eat_while(CharClass::Digit), "");
    assert_eq!(lx.eat_while(CharClass::Name), "x");
    assert_eq!(lx.bump(), None);
    assert_eq!(lx.peek(), None);
}

#[test]
fn tokens_never_outnumber_characters() {
    for line in ["%0=a(b)", "[],:{}<>", "  x  ", "1.5e+3 -> 7"] {
        let mut lx = Lexer::new(line);
        let toks = lx.tokenize();
        assert!(toks.len() <= line.chars().count());
    }
    let mut lx = Lexer::new("[],:{}<>");
    assert_eq!(lx.tokenize().len(), 8);
}

#[test]
fn exponent_sign_is_never_a_stuck_position() {
    let mut lx = Lexer::new("dense<1.0e+00> 2E-3");
    assert_eq!(
        lx.tokenize(),
        vec![id("dense"), Tok::Less, Tok::Float("1.0e+00".to_string()), Tok::Greater, Tok::Float("2E-3".to_string())]
    );
}
