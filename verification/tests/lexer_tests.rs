use ruda::lexer::{
    deparse_token, find_ws_str, get_token, is_whitespace, parse_token, tokenize_raw, Line, NumberLit,
    Operators, Tokens,
};

const RESERVED: &str = " +-*/=%;:,.({<[]>})&|!?\"'\\";

fn text(s: &str) -> Tokens {
    Tokens::Text(s.to_string())
}

#[test]
fn parses_an_operator() {
    assert!(matches!(parse_token("+"), Tokens::Operator(Operators::Plus)));
}

#[test]
fn parses_single_character_tokens() {
    assert_eq!(parse_token("("), Tokens::Parenteses(false));
    assert_eq!(parse_token("]"), Tokens::SquareBracket(true));
    assert_eq!(parse_token(">"), Tokens::Operator(Operators::AngleBracket(true)));
    assert_eq!(parse_token(" "), Tokens::Space);
    assert_eq!(parse_token("'"), Tokens::Quotes);
    assert_eq!(parse_token("?"), Tokens::Optional);
}

#[test]
fn parses_whitespace_and_text() {
    assert_eq!(parse_token("\t"), Tokens::Whitespace("\t".to_string()));
    assert_eq!(parse_token("\n"), Tokens::Whitespace("\n".to_string()));
    assert_eq!(parse_token("abc"), text("abc"));
    assert_eq!(parse_token("12"), text("12"));
    assert_eq!(parse_token("\\"), text("\\"));
}

#[test]
fn writes_tokens_back() {
    assert_eq!(deparse_token(&Tokens::Operator(Operators::And)), "&&");
    assert_eq!(deparse_token(&Tokens::DoubleColon), "::");
    assert_eq!(deparse_token(&Tokens::Space), " ");
    assert_eq!(deparse_token(&Tokens::Whitespace("\n".to_string())), "");
    assert_eq!(deparse_token(&Tokens::Operator(Operators::AddEq)), "");
    assert_eq!(deparse_token(&text("name")), "name");
}

#[test]
fn writing_back_a_parsed_piece_gives_the_piece() {
    for piece in ["+", "(", " ", "abc", "::", "x1", "<"] {
        assert_eq!(deparse_token(&parse_token(piece)), piece);
    }
}

#[test]
fn tells_whitespace() {
    assert!(is_whitespace(" \t\n"));
    assert!(is_whitespace("\u{3000}"));
    assert!(!is_whitespace("a "));
    assert!(is_whitespace(""));
}

#[test]
fn finds_the_end_of_a_piece() {
    assert_eq!(find_ws_str(b"abc def", RESERVED), 3);
    assert_eq!(find_ws_str(b"ab+c", RESERVED), 2);
    assert_eq!(find_ws_str(b"+", RESERVED), 0);
    assert_eq!(find_ws_str(b"word", RESERVED), 4);
    assert_eq!(find_ws_str(b"a\tb", RESERVED), 1);
}

#[test]
fn reads_one_token() {
    let (t, n) = get_token(b"let x");
    assert_eq!(t, text("let"));
    assert_eq!(n, 3);
    let (t, n) = get_token(b"+=");
    assert_eq!(t, Tokens::Operator(Operators::Plus));
    assert_eq!(n, 1);
}

#[test]
fn splits_a_file_and_records_positions() {
    let (tokens, positions) = tokenize_raw(b"a+b\nc");
    assert_eq!(
        tokens,
        vec![
            text("a"),
            Tokens::Operator(Operators::Plus),
            text("b"),
            Tokens::Whitespace("\n".to_string()),
            text("c"),
        ]
    );
    assert_eq!(positions, vec![(0, 0), (1, 0), (2, 0), (3, 0), (0, 1), (1, 1)]);
}

#[test]
fn splits_multibyte_text() {
    let (tokens, positions) = tokenize_raw("é+".as_bytes());
    assert_eq!(tokens, vec![text("é"), Tokens::Operator(Operators::Plus)]);
    assert_eq!(positions, vec![(0, 0), (2, 0), (3, 0)]);
}

#[test]
fn a_position_is_column_then_line() {
    assert_eq!(Line::from_pos((3, 7)), Line { line: 7, column: 3 });
}

#[test]
fn a_number_literal_keeps_its_digits() {
    let n = NumberLit { whole: 1, fraction: Some("5".to_string()) };
    assert_eq!(n.copy(), n);
}

#[test]
fn checks_that_source_can_be_lexed() {
    assert!(ruda::lexer::is_lexable(b"let x = 1;"));
    assert!(ruda::lexer::is_lexable("zk\u{00e9}ska".as_bytes()));
    assert!(!ruda::lexer::is_lexable(&[b'a', 0xff, b' ']));
    let (tokens, places) = ruda::try_tokenize("a b").unwrap();
    assert_eq!(tokens.len(), 3);
    assert_eq!(places.len(), 4);
}
