use ruda::lexer::{Line, NumberLit, Operators, Tokens};
use ruda::preprocessor::{tokenize, Errors};

fn text(s: &str) -> Tokens {
    Tokens::Text(s.to_string())
}

fn num(whole: usize, fraction: Option<&str>, kind: char) -> Tokens {
    Tokens::Number(NumberLit { whole, fraction: fraction.map(|f| f.to_string()) }, kind)
}

fn op(o: Operators) -> Tokens {
    Tokens::Operator(o)
}

#[test]
fn formats_a_statement() {
    let (tokens, lines, errors) = tokenize(b"let x = 5;", true);
    assert_eq!(
        tokens,
        vec![text("let"), text("x"), op(Operators::Equal), num(5, None, 'n'), Tokens::Semicolon, Tokens::EndOfFile]
    );
    assert_eq!(lines, vec![(0, 0), (4, 0), (6, 0), (8, 0), (9, 0), (10, 0)]);
    assert!(errors.is_empty());
}

#[test]
fn without_formatting_tokens_stay_raw() {
    let (tokens, lines, errors) = tokenize(b"a b", false);
    assert_eq!(tokens, vec![text("a"), Tokens::Space, text("b")]);
    assert_eq!(lines, vec![(0, 0), (1, 0), (2, 0), (3, 0)]);
    assert!(errors.is_empty());
}

#[test]
fn joins_two_character_operators() {
    let (tokens, _, _) = tokenize(b"a == b != c && d || e", true);
    assert_eq!(
        tokens,
        vec![
            text("a"),
            op(Operators::DoubleEq),
            text("b"),
            op(Operators::NotEqual),
            text("c"),
            op(Operators::And),
            text("d"),
            op(Operators::Or),
            text("e"),
            Tokens::EndOfFile
        ]
    );
    let (tokens, _, _) = tokenize(b"a+=1;b-=2;c*=3;d/=4", true);
    assert_eq!(tokens[1], op(Operators::AddEq));
    assert_eq!(tokens[5], op(Operators::SubEq));
    assert_eq!(tokens[9], op(Operators::MulEq));
    assert_eq!(tokens[13], op(Operators::DivEq));
}

#[test]
fn angle_brackets_join_with_equal_as_written() {
    let (tokens, _, _) = tokenize(b"a>=b", true);
    assert_eq!(tokens, vec![text("a"), op(Operators::LessEq), text("b"), Tokens::EndOfFile]);
    let (tokens, _, _) = tokenize(b"a<=b", true);
    assert_eq!(tokens, vec![text("a"), op(Operators::MoreEq), text("b"), Tokens::EndOfFile]);
}

#[test]
fn reads_numbers() {
    let (tokens, lines, errors) = tokenize(b"x += 1.5", true);
    assert_eq!(tokens, vec![text("x"), op(Operators::AddEq), num(1, Some("5"), 'f'), Tokens::EndOfFile]);
    assert_eq!(lines, vec![(0, 0), (2, 0), (5, 0), (8, 0)]);
    assert!(errors.is_empty());
    let (tokens, _, _) = tokenize(b"5u", true);
    assert_eq!(tokens, vec![num(5, None, 'u'), Tokens::EndOfFile]);
    let (tokens, _, _) = tokenize(b"2.5e3", true);
    assert_eq!(tokens, vec![num(2, Some("5e3"), 'f'), Tokens::EndOfFile]);
}

#[test]
fn reports_invalid_numbers() {
    let (tokens, _, errors) = tokenize(b"12abc3", true);
    assert_eq!(tokens, vec![text("12abc3"), Tokens::EndOfFile]);
    assert_eq!(errors.len(), 1);
    assert!(matches!(&errors[0], Errors::InvalidNumber(l, s) if *l == Line { line: 0, column: 0 } && s == "12abc3"));
    let (_, _, errors) = tokenize(b"a 1.x", true);
    assert_eq!(errors.len(), 1);
    assert!(matches!(&errors[0], Errors::InvalidNumber(l, s) if *l == Line { line: 0, column: 2 } && s == "1.x"));
    let (_, _, errors) = tokenize(b"99999999999999999999999", true);
    assert!(matches!(&errors[0], Errors::InvalidNumber(_, s) if s == "99999999999999999999999"));
}

#[test]
fn reads_strings() {
    let (tokens, lines, errors) = tokenize(b"\"hi there\"", true);
    assert_eq!(tokens, vec![Tokens::String("hi there".to_string()), Tokens::EndOfFile]);
    assert_eq!(lines, vec![(0, 0), (10, 0)]);
    assert!(errors.is_empty());
    let (tokens, _, _) = tokenize(b"\"open", true);
    assert_eq!(tokens, vec![Tokens::String("open".to_string())]);
}

#[test]
fn reads_characters() {
    let (tokens, _, errors) = tokenize(b"'a'", true);
    assert_eq!(tokens, vec![Tokens::Char('a'), Tokens::EndOfFile]);
    assert!(errors.is_empty());
    let (tokens, _, errors) = tokenize(b"'\\n'", true);
    assert_eq!(tokens, vec![Tokens::Char('\n'), Tokens::EndOfFile]);
    assert!(errors.is_empty());
}

#[test]
fn reports_long_characters() {
    let (tokens, _, errors) = tokenize(b"'ab'", true);
    assert_eq!(tokens, vec![Tokens::Quotes, Tokens::EndOfFile]);
    assert_eq!(errors.len(), 1);
    assert!(matches!(&errors[0], Errors::CharacterTooLong(l, s) if *l == Line { line: 0, column: 0 } && s == "ab"));
}

#[test]
fn reports_invalid_characters() {
    let (tokens, _, errors) = tokenize(b"'\\q'", true);
    assert_eq!(tokens, vec![Tokens::String("\"\\q\"".to_string()), Tokens::EndOfFile]);
    assert_eq!(errors.len(), 1);
    assert!(matches!(&errors[0], Errors::InvalidChar(l, _) if *l == Line { line: 0, column: 0 }));
}

#[test]
fn drops_comments() {
    let (tokens, lines, _) = tokenize(b"a // hi\nb", true);
    assert_eq!(tokens, vec![text("a"), text("b"), Tokens::EndOfFile]);
    assert_eq!(lines, vec![(0, 0), (0, 1), (1, 1)]);
    let (tokens, _, _) = tokenize(b"a /* x */ b", true);
    assert_eq!(tokens, vec![text("a"), text("b"), Tokens::EndOfFile]);
}

#[test]
fn joins_colons_and_semicolons() {
    let (tokens, _, _) = tokenize(b"a::b", true);
    assert_eq!(tokens, vec![text("a"), Tokens::DoubleColon, text("b"), Tokens::EndOfFile]);
    let (tokens, _, _) = tokenize(b";;", true);
    assert_eq!(tokens, vec![Tokens::Semicolon, Tokens::EndOfFile]);
    let (tokens, _, _) = tokenize(b";;;", true);
    assert_eq!(tokens, vec![Tokens::Semicolon, Tokens::Semicolon, Tokens::EndOfFile]);
}

#[test]
fn whole_source_text() {
    let (tokens, _, errors) = ruda::tokenize("fun main() {\n\tio.println(\"x\");\n}", true);
    assert!(errors.is_empty());
    assert_eq!(
        tokens,
        vec![
            text("fun"),
            text("main"),
            Tokens::Parenteses(false),
            Tokens::Parenteses(true),
            Tokens::CurlyBracket(false),
            text("io"),
            Tokens::Dot,
            text("println"),
            Tokens::Parenteses(false),
            Tokens::String("x".to_string()),
            Tokens::Parenteses(true),
            Tokens::Semicolon,
            Tokens::CurlyBracket(true),
            Tokens::EndOfFile
        ]
    );
}
