use emat::parse::tokens::{decimal_string, tokenize, LexError, Lexer, Span, Token, TokenData};

fn kinds(src: &str) -> Vec<Token> {
    tokenize(src).unwrap().iter().map(|t| t.t).collect()
}

fn token(t: Token, start: usize, end: usize, slice: &str) -> TokenData {
    TokenData { t, span: Span { start, end }, slice: slice.to_string() }
}

#[test]
fn tokenizes_a_sum_with_contiguous_spans() {
    let tokens: Vec<TokenData> = tokenize("12+3").unwrap().into_iter().collect();
    assert_eq!(
        tokens,
        vec![
            token(Token::Number, 0, 2, "12"),
            token(Token::Add, 2, 3, "+"),
            token(Token::Number, 3, 4, "3"),
        ]
    );
    assert_eq!(tokens[0].span.start, 0);
    assert_eq!(tokens[0].span.end, tokens[1].span.start);
    assert_eq!(tokens[1].span.end, tokens[2].span.start);
    assert_eq!(tokens[2].span.end, "12+3".len());
}

#[test]
fn empty_source_has_no_tokens() {
    assert!(tokenize("").unwrap().is_empty());
    assert!(tokenize(" \t  ").unwrap().is_empty());
}

#[test]
fn spaces_and_tabs_are_skipped_but_line_feeds_are_tokens() {
    let tokens: Vec<TokenData> = tokenize(" a\t\n b").unwrap().into_iter().collect();
    assert_eq!(
        tokens,
        vec![
            token(Token::Ident, 1, 2, "a"),
            token(Token::Newline, 3, 4, "\n"),
            token(Token::Ident, 5, 6, "b"),
        ]
    );
}

#[test]
fn identifiers_take_letters_digits_and_underscores() {
    let tokens: Vec<TokenData> = tokenize("_a1_b2 x").unwrap().into_iter().collect();
    assert_eq!(
        tokens,
        vec![token(Token::Ident, 0, 6, "_a1_b2"), token(Token::Ident, 7, 8, "x")]
    );
}

#[test]
fn a_number_may_have_one_fraction() {
    let tokens: Vec<TokenData> = tokenize("3.25").unwrap().into_iter().collect();
    assert_eq!(tokens, vec![token(Token::Number, 0, 4, "3.25")]);
}

#[test]
fn a_dot_without_digits_behind_it_is_its_own_token() {
    let tokens: Vec<TokenData> = tokenize("1.").unwrap().into_iter().collect();
    assert_eq!(tokens, vec![token(Token::Number, 0, 1, "1"), token(Token::Dot, 1, 2, ".")]);
    let tokens: Vec<TokenData> = tokenize("1.2.3").unwrap().into_iter().collect();
    assert_eq!(
        tokens,
        vec![
            token(Token::Number, 0, 3, "1.2"),
            token(Token::Dot, 3, 4, "."),
            token(Token::Number, 4, 5, "3"),
        ]
    );
}

#[test]
fn a_digit_run_before_letters_is_a_number_and_then_a_name() {
    assert_eq!(kinds("12ab"), vec![Token::Number, Token::Ident]);
}

#[test]
fn every_symbol_has_its_kind() {
    assert_eq!(
        kinds("=+-*/()[],."),
        vec![
            Token::Assign,
            Token::Add,
            Token::Sub,
            Token::Mul,
            Token::Div,
            Token::LParen,
            Token::RParen,
            Token::RBracket,
            Token::LBracket,
            Token::Comma,
            Token::Dot,
        ]
    );
}

#[test]
fn an_unknown_character_is_an_error_with_its_span() {
    assert_eq!(tokenize("a # b"), Err(LexError { span: Span { start: 2, end: 3 } }));
    assert_eq!(tokenize("1\r\n"), Err(LexError { span: Span { start: 1, end: 2 } }));
    assert_eq!(tokenize("\u{c}"), Err(LexError { span: Span { start: 0, end: 1 } }));
}

#[test]
fn a_character_of_several_bytes_is_one_error() {
    assert_eq!(tokenize("x\u{e9}y"), Err(LexError { span: Span { start: 1, end: 3 } }));
    assert_eq!(tokenize("\u{1f600}"), Err(LexError { span: Span { start: 0, end: 4 } }));
}

#[test]
fn the_first_error_ends_the_collection() {
    assert_eq!(tokenize("a ? b ! c"), Err(LexError { span: Span { start: 2, end: 3 } }));
}

#[test]
fn the_lexer_goes_on_behind_an_error() {
    let mut lexer = Lexer::new("a\u{e9}?b");
    assert_eq!(lexer.next(), Some(Ok(token(Token::Ident, 0, 1, "a"))));
    assert_eq!(lexer.next(), Some(Err(LexError { span: Span { start: 1, end: 3 } })));
    assert_eq!(lexer.next(), Some(Err(LexError { span: Span { start: 3, end: 4 } })));
    assert_eq!(lexer.next(), Some(Ok(token(Token::Ident, 4, 5, "b"))));
    assert_eq!(lexer.next(), None);
    assert_eq!(lexer.next(), None);
}

#[test]
fn a_lexer_can_be_made_again_from_the_same_source() {
    let src = "f(x) = x * 2";
    let first = TokenData::vecdeque(Token::lexer(src)).unwrap();
    let second = TokenData::vecdeque(Token::lexer(src)).unwrap();
    assert_eq!(first, second);
    assert_eq!(first.len(), 8);
}

#[test]
fn numbers_are_written_in_decimal() {
    assert_eq!(decimal_string(0), "0");
    assert_eq!(decimal_string(7), "7");
    assert_eq!(decimal_string(10), "10");
    assert_eq!(decimal_string(1234567890), "1234567890");
    assert_eq!(decimal_string(usize::MAX), usize::MAX.to_string());
}

#[test]
fn a_lex_error_says_where_it_is() {
    assert_eq!(Span { start: 12, end: 305 }.text(), "12..305");
    assert_eq!(tokenize("a # b").unwrap_err().message(), "Unknown character at bytes 2..3");
}
