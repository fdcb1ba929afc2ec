use asalang::lexer::{lex, Token, TokenKind, Tokens};

fn test_lex(input: &str) -> Vec<TokenKind> {
    lex(input).tokens.iter().map(|t| t.get_kind()).collect::<Vec<TokenKind>>()
}

#[test]
fn lexer_test_01() {
    assert_eq!(
        test_lex("123"),
        vec![TokenKind::Digit, TokenKind::Digit, TokenKind::Digit, TokenKind::EOF]
    );
}

#[test]
fn lexer_test_02() {
    assert_eq!(
        test_lex("abc"),
        vec![TokenKind::Alpha, TokenKind::Alpha, TokenKind::Alpha, TokenKind::EOF]
    );
}

#[test]
fn lexer_test_03() {
    assert_eq!(
        test_lex("hello world"),
        vec![
            TokenKind::Alpha,
            TokenKind::Alpha,
            TokenKind::Alpha,
            TokenKind::Alpha,
            TokenKind::Alpha,
            TokenKind::Alpha,
            TokenKind::Alpha,
            TokenKind::Alpha,
            TokenKind::Alpha,
            TokenKind::Alpha,
            TokenKind::EOF
        ]
    );
}

#[test]
fn lexer_test_04() {
    assert_eq!(test_lex("true"), vec![TokenKind::True, TokenKind::EOF]);
}

#[test]
fn lexer_test_05() {
    assert_eq!(test_lex("false"), vec![TokenKind::False, TokenKind::EOF]);
}

#[test]
fn lexer_test_06() {
    assert_eq!(
        test_lex("let x = 123;"),
        vec![
            TokenKind::Let,
            TokenKind::Alpha,
            TokenKind::Equal,
            TokenKind::Digit,
            TokenKind::Digit,
            TokenKind::Digit,
            TokenKind::Semicolon,
            TokenKind::EOF,
        ]
    );
}

#[test]
fn lexer_test_07() {
    assert_eq!(
        test_lex(r#"let x = 123;let y="abc";"#),
        vec![
            TokenKind::Let,
            TokenKind::Alpha,
            TokenKind::Equal,
            TokenKind::Digit,
            TokenKind::Digit,
            TokenKind::Digit,
            TokenKind::Semicolon,
            TokenKind::Let,
            TokenKind::Alpha,
            TokenKind::Equal,
            TokenKind::Quote,
            TokenKind::Alpha,
            TokenKind::Alpha,
            TokenKind::Alpha,
            TokenKind::Quote,
            TokenKind::Semicolon,
            TokenKind::EOF,
        ]
    );
}

#[test]
fn lexer_test_08() {
    assert_eq!(
        test_lex(r#"fn main() {}"#),
        vec![
            TokenKind::Fn,
            TokenKind::Alpha,
            TokenKind::Alpha,
            TokenKind::Alpha,
            TokenKind::Alpha,
            TokenKind::LeftParen,
            TokenKind::RightParen,
            TokenKind::LeftCurly,
            TokenKind::RightCurly,
            TokenKind::EOF,
        ]
    );
}

#[test]
fn lexer_test_09() {
    assert_eq!(
        test_lex(
            r#"fn foo(a,b,c) {
  let x=a+1;
	let y=bar(c-b);
  return x+y;
}"#
        ),
        vec![
            TokenKind::Fn,
            TokenKind::Alpha,
            TokenKind::Alpha,
            TokenKind::Alpha,
            TokenKind::LeftParen,
            TokenKind::Alpha,
            TokenKind::Comma,
            TokenKind::Alpha,
            TokenKind::Comma,
            TokenKind::Alpha,
            TokenKind::RightParen,
            TokenKind::LeftCurly,
            TokenKind::Let,
            TokenKind::Alpha,
            TokenKind::Equal,
            TokenKind::Alpha,
            TokenKind::Plus,
            TokenKind::Digit,
            TokenKind::Semicolon,
            TokenKind::Let,
            TokenKind::Alpha,
            TokenKind::Equal,
            TokenKind::Alpha,
            TokenKind::Alpha,
            TokenKind::Alpha,
            TokenKind::LeftParen,
            TokenKind::Alpha,
            TokenKind::Dash,
            TokenKind::Alpha,
            TokenKind::RightParen,
            TokenKind::Semicolon,
            TokenKind::Return,
            TokenKind::Alpha,
            TokenKind::Plus,
            TokenKind::Alpha,
            TokenKind::Semicolon,
            TokenKind::RightCurly,
            TokenKind::EOF,
        ]
    );
}

#[test]
fn lexer_test_equal_to() {
    assert_eq!(test_lex("=="), vec![TokenKind::EqualTo, TokenKind::EOF]);
}

#[test]
fn lexer_test_less_than_or_equal_to() {
    assert_eq!(
        test_lex("1 <= 2"),
        vec![TokenKind::Digit, TokenKind::LessThanOrEqualTo, TokenKind::Digit, TokenKind::EOF]
    );
}

#[test]
fn lexer_test_greater_than_or_equal_to() {
    assert_eq!(
        test_lex("2 >= 2"),
        vec![TokenKind::Digit, TokenKind::GreaterThanOrEqualTo, TokenKind::Digit, TokenKind::EOF]
    );
}

#[test]
fn lexer_test_greater_than() {
    assert_eq!(
        test_lex("3 > 2"),
        vec![TokenKind::Digit, TokenKind::GreaterThan, TokenKind::Digit, TokenKind::EOF]
    );
}

#[test]
fn lexer_test_less_than() {
    assert_eq!(
        test_lex("1 < 2"),
        vec![TokenKind::Digit, TokenKind::LessThan, TokenKind::Digit, TokenKind::EOF]
    );
}

#[test]
fn lexer_test_not_equal_to() {
    assert_eq!(
        test_lex("a != b"),
        vec![TokenKind::Alpha, TokenKind::NotEqualTo, TokenKind::Alpha, TokenKind::EOF]
    );
}

#[test]
fn lexer_empty_input_yields_single_eof() {
    assert_eq!(test_lex(""), vec![TokenKind::EOF]);
}

#[test]
fn lexer_is_pure() {
    let a = lex("fn main() { return 1 + 2; }");
    let b = lex("fn main() { return 1 + 2; }");
    assert_eq!(a, b);
}

#[test]
fn lexer_records_positions() {
    let toks = lex("a\nb");
    assert_eq!(toks.tokens[0].start_line, 1);
    assert_eq!(toks.tokens[0].start_col, 1);
    assert_eq!(toks.tokens[1].start_line, 2);
    assert_eq!(toks.tokens[1].start_col, 1);
}

#[test]
fn lexer_columns_advance_per_byte() {
    // "1 <= 2": '1' at column 1, "<=" spanning 3..4, '2' at column 6
    let toks = lex("1 <= 2");
    assert_eq!(toks.tokens[0].start_col, 1);
    assert_eq!(toks.tokens[0].end_col, 1);
    assert_eq!(toks.tokens[1].start_col, 3);
    assert_eq!(toks.tokens[1].end_col, 4);
    assert_eq!(toks.tokens[2].start_col, 6);
}

#[test]
fn lexer_operator_spans_two_columns() {
    let toks = lex("==");
    assert_eq!(toks.tokens[0].start_col, 1);
    assert_eq!(toks.tokens[0].end_col, 2);
    // the EOF sentinel sits after both consumed bytes
    assert_eq!(toks.tokens[1].start_col, 3);
}

#[test]
fn lexer_keyword_spans_one_slot() {
    let toks = lex("return");
    assert_eq!(toks.tokens.len(), 2);
    assert_eq!(toks.tokens[0].get_kind(), TokenKind::Return);
    assert_eq!(toks.tokens[0].start_col, 1);
    assert_eq!(toks.tokens[0].end_col, 6);
}

#[test]
fn lexer_keyword_probe_is_greedy() {
    // `fn` is recognised wherever its two bytes stand, word boundary or not
    assert_eq!(
        test_lex("fnord"),
        vec![TokenKind::Fn, TokenKind::Alpha, TokenKind::Alpha, TokenKind::Alpha, TokenKind::EOF]
    );
}

#[test]
fn tokens_is_done_and_len() {
    let empty = Tokens::new();
    assert!(empty.is_done());
    assert!(empty.is_empty());
    let toks = lex("1");
    assert_eq!(toks.len(), 2);
    assert!(!toks.is_done());
}

#[test]
fn token_new_and_set_kind() {
    let mut t = Token::new();
    assert_eq!(t.get_kind(), TokenKind::Other);
    t.set_kind(TokenKind::Alpha);
    assert_eq!(t.get_kind(), TokenKind::Alpha);
}
