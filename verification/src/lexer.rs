//! Splitting source bytes into tokens.
//!
//! A piece of source ends before the first reserved character or whitespace
//! byte; a piece that would be empty is one byte long instead.  Each piece
//! becomes one token.
use vstd::prelude::*;
use vstd::utf8::*;

verus! {

/// Operators of the language.
#[derive(Debug, Clone, Copy, PartialEq, Eq, Structural)]
pub enum Operators {
    Plus,
    Minus,
    Star,
    Slash,
    Mod,
    AddEq,
    SubEq,
    MulEq,
    DivEq,
    Equal,
    DoubleEq,
    NotEqual,
    LessEq,
    MoreEq,
    And,
    Or,
    Not,
    Ampersant,
    Pipe,
    /// opening false, closing true
    AngleBracket(bool),
}

/// A number literal as written in the source: its whole part and, for a
/// literal with a decimal point, the digits (and exponent) after the point.
/// Its value is `whole + 0.<fraction>`.
#[derive(Debug, Clone, PartialEq)]
pub struct NumberLit {
    pub whole: usize,
    pub fraction: Option<String>,
}

/// Tokens of the language.
#[derive(Debug, Clone, PartialEq)]
pub enum Tokens {
    /// opening false, closing true
    Parenteses(bool),
    /// opening false, closing true
    CurlyBracket(bool),
    /// opening false, closing true
    SquareBracket(bool),
    Operator(Operators),
    Colon,
    Dot,
    Semicolon,
    Comma,
    Quotes,
    DoubleQuotes,
    Optional,
    Space,
    /// content
    String(String),
    Char(char),
    Whitespace(String),
    /// in case we can not identify token at the moment
    Text(String),
    DoubleColon,
    /// the literal and its kind suffix
    Number(NumberLit, char),
    Tab,
    Deleted,
    EndOfFile,
}

/// The mathematical value of a number literal.
pub struct NumberView {
    pub whole: nat,
    pub fraction: Option<Seq<char>>,
}

/// The mathematical value of a token: strings become character sequences.
pub enum TokenView {
    Parenteses(bool),
    CurlyBracket(bool),
    SquareBracket(bool),
    Operator(Operators),
    Colon,
    Dot,
    Semicolon,
    Comma,
    Quotes,
    DoubleQuotes,
    Optional,
    Space,
    String(Seq<char>),
    Char(char),
    Whitespace(Seq<char>),
    Text(Seq<char>),
    DoubleColon,
    Number(NumberView, char),
    Tab,
    Deleted,
    EndOfFile,
}

impl View for NumberLit {
    type V = NumberView;

    open spec fn view(&self) -> NumberView {
        NumberView {
            whole: self.whole as nat,
            fraction: match &self.fraction {
                Some(f) => Some(f@),
                None => None,
            },
        }
    }
}

impl View for Tokens {
    type V = TokenView;

    open spec fn view(&self) -> TokenView {
        match self {
            Tokens::Parenteses(b) => TokenView::Parenteses(*b),
            Tokens::CurlyBracket(b) => TokenView::CurlyBracket(*b),
            Tokens::SquareBracket(b) => TokenView::SquareBracket(*b),
            Tokens::Operator(o) => TokenView::Operator(*o),
            Tokens::Colon => TokenView::Colon,
            Tokens::Dot => TokenView::Dot,
            Tokens::Semicolon => TokenView::Semicolon,
            Tokens::Comma => TokenView::Comma,
            Tokens::Quotes => TokenView::Quotes,
            Tokens::DoubleQuotes => TokenView::DoubleQuotes,
            Tokens::Optional => TokenView::Optional,
            Tokens::Space => TokenView::Space,
            Tokens::String(s) => TokenView::String(s@),
            Tokens::Char(c) => TokenView::Char(*c),
            Tokens::Whitespace(s) => TokenView::Whitespace(s@),
            Tokens::Text(s) => TokenView::Text(s@),
            Tokens::DoubleColon => TokenView::DoubleColon,
            Tokens::Number(n, k) => TokenView::Number(n@, *k),
            Tokens::Tab => TokenView::Tab,
            Tokens::Deleted => TokenView::Deleted,
            Tokens::EndOfFile => TokenView::EndOfFile,
        }
    }
}

impl NumberLit {
    /// A copy of the literal.
    pub fn copy(&self) -> (r: NumberLit)
        ensures
            r@ == self@,
    {
        NumberLit {
            whole: self.whole,
            fraction: match &self.fraction {
                Some(f) => Some(f.clone()),
                None => None,
            },
        }
    }
}

impl Tokens {
    /// A copy of the token.
    pub fn copy(&self) -> (r: Tokens)
        ensures
            r@ == self@,
    {
        match self {
            Tokens::Parenteses(b) => Tokens::Parenteses(*b),
            Tokens::CurlyBracket(b) => Tokens::CurlyBracket(*b),
            Tokens::SquareBracket(b) => Tokens::SquareBracket(*b),
            Tokens::Operator(o) => Tokens::Operator(*o),
            Tokens::Colon => Tokens::Colon,
            Tokens::Dot => Tokens::Dot,
            Tokens::Semicolon => Tokens::Semicolon,
            Tokens::Comma => Tokens::Comma,
            Tokens::Quotes => Tokens::Quotes,
            Tokens::DoubleQuotes => Tokens::DoubleQuotes,
            Tokens::Optional => Tokens::Optional,
            Tokens::Space => Tokens::Space,
            Tokens::String(s) => Tokens::String(s.clone()),
            Tokens::Char(c) => Tokens::Char(*c),
            Tokens::Whitespace(s) => Tokens::Whitespace(s.clone()),
            Tokens::Text(s) => Tokens::Text(s.clone()),
            Tokens::DoubleColon => Tokens::DoubleColon,
            Tokens::Number(n, k) => Tokens::Number(n.copy(), *k),
            Tokens::Tab => Tokens::Tab,
            Tokens::Deleted => Tokens::Deleted,
            Tokens::EndOfFile => Tokens::EndOfFile,
        }
    }
}

/// Whether `c` has the Unicode `White_Space` property, as `char::is_whitespace` decides it.
pub open spec fn is_ws_char(c: char) -> bool {
    let u = c as u32;
    ||| 0x09 <= u <= 0x0d
    ||| u == 0x20
    ||| u == 0x85
    ||| u == 0xa0
    ||| u == 0x1680
    ||| 0x2000 <= u <= 0x200a
    ||| u == 0x2028
    ||| u == 0x2029
    ||| u == 0x202f
    ||| u == 0x205f
    ||| u == 0x3000
}

/// Whether every character of `s` is whitespace (true of the empty string).
pub open spec fn is_ws_str(s: Seq<char>) -> bool {
    forall|i: int| 0 <= i < s.len() ==> is_ws_char(#[trigger] s[i])
}

/// Executable test of the Unicode `White_Space` property.
pub fn char_is_whitespace(c: char) -> (r: bool)
    ensures
        r == is_ws_char(c),
{
    let u = c as u32;
    (0x09 <= u && u <= 0x0d) || u == 0x20 || u == 0x85 || u == 0xa0 || u == 0x1680 || (0x2000
        <= u && u <= 0x200a) || u == 0x2028 || u == 0x2029 || u == 0x202f || u == 0x205f || u
        == 0x3000
}

/// Whether all characters of `s` are whitespace.
pub fn is_whitespace(s: &str) -> (r: bool)
    ensures
        r == is_ws_str(s@),
{
    let n = s.unicode_len();
    let mut i: usize = 0;
    while i < n
        invariant
            n == s@.len(),
            i <= n,
            forall|j: int| 0 <= j < i ==> is_ws_char(#[trigger] s@[j]),
        decreases n - i,
    {
        if !char_is_whitespace(s.get_char(i)) {
            return false;
        }
        i = i + 1;
    }
    true
}

/// The characters that end a piece of source: `" +-*/=%;:,.({<[]>})&|!?\"'\\"`.
pub open spec fn reserved_chars() -> Seq<char> {
    seq![
        ' ', '+', '-', '*', '/', '=', '%', ';', ':', ',', '.', '(', '{', '<', '[', ']', '>', '}',
        ')', '&', '|', '!', '?', '"', '\'', '\\',
    ]
}

/// A byte, read as a Latin-1 character, that ends a piece of source.
pub open spec fn is_stop(b: u8, stops: Seq<char>) -> bool {
    stops.contains(b as char) || is_ws_char(b as char)
}

/// The number of bytes before the first stopping byte of `e`.
pub open spec fn ws_len(e: Seq<u8>, stops: Seq<char>) -> nat
    decreases e.len(),
{
    if e.len() == 0 {
        0
    } else if is_stop(e[0], stops) {
        0
    } else {
        1 + ws_len(e.drop_first(), stops)
    }
}

/// `ws_len` is the index of the first stopping byte, or the length when there is none.
pub proof fn lemma_ws_len(e: Seq<u8>, stops: Seq<char>)
    ensures
        ws_len(e, stops) <= e.len(),
        forall|j: int| 0 <= j < ws_len(e, stops) ==> !is_stop(#[trigger] e[j], stops),
        ws_len(e, stops) < e.len() ==> is_stop(e[ws_len(e, stops) as int], stops),
    decreases e.len(),
{
    if e.len() > 0 && !is_stop(e[0], stops) {
        lemma_ws_len(e.drop_first(), stops);
        assert forall|j: int| 0 <= j < ws_len(e, stops) implies !is_stop(#[trigger] e[j], stops) by {
            if j > 0 {
                assert(e[j] == e.drop_first()[j - 1]);
            }
        }
    }
}

/// The characteristic property of `ws_len` determines it.
proof fn lemma_ws_len_unique(e: Seq<u8>, stops: Seq<char>, r: int)
    requires
        0 <= r <= e.len(),
        forall|j: int| 0 <= j < r ==> !is_stop(#[trigger] e[j], stops),
        r < e.len() ==> is_stop(e[r], stops),
    ensures
        ws_len(e, stops) == r,
{
    lemma_ws_len(e, stops);
    let w = ws_len(e, stops) as int;
    if w < r {
        assert(!is_stop(e[w], stops));
    } else if r < w {
        assert(!is_stop(e[r], stops));
    }
}

/// Whether the character `c` occurs in `s`.
fn str_contains_char(s: &str, c: char) -> (r: bool)
    ensures
        r == s@.contains(c),
{
    let n = s.unicode_len();
    let mut i: usize = 0;
    while i < n
        invariant
            n == s@.len(),
            i <= n,
            forall|j: int| 0 <= j < i ==> s@[j] != c,
        decreases n - i,
    {
        if s.get_char(i) == c {
            assert(s@[i as int] == c);
            return true;
        }
        i = i + 1;
    }
    false
}

/// Returns the number of bytes of `expression` before the first byte that,
/// read as a character, is in `tokens_str` or is whitespace.
pub fn find_ws_str(expression: &[u8], tokens_str: &str) -> (idx: usize)
    ensures
        idx == ws_len(expression@, tokens_str@),
{
    let mut idx: usize = 0;
    while idx < expression.len()
        invariant
            idx <= expression@.len(),
            forall|j: int| 0 <= j < idx ==> !is_stop(#[trigger] expression@[j], tokens_str@),
        decreases expression@.len() - idx,
    {
        let b = expression[idx];
        let c = b as char;
        if str_contains_char(tokens_str, c) || char_is_whitespace(c) {
            proof {
                lemma_ws_len_unique(expression@, tokens_str@, idx as int);
            }
            return idx;
        }
        idx = idx + 1;
    }
    proof {
        lemma_ws_len_unique(expression@, tokens_str@, idx as int);
    }
    idx
}


/// A position in the source.
#[derive(Debug, Clone, Copy, PartialEq, Eq, Structural)]
pub struct Line {
    pub line: usize,
    pub column: usize,
}

impl Line {
    /// The position that the lexer records as `(column, line)`.
    pub fn from_pos(pos: (usize, usize)) -> (r: Line)
        ensures
            r.column == pos.0,
            r.line == pos.1,
    {
        Line { line: pos.1, column: pos.0 }
    }
}

/// The token that a single character forms on its own, if any.
pub open spec fn single_char_token(c: char) -> Option<TokenView> {
    if c == '+' {
        Some(TokenView::Operator(Operators::Plus))
    } else if c == '-' {
        Some(TokenView::Operator(Operators::Minus))
    } else if c == '*' {
        Some(TokenView::Operator(Operators::Star))
    } else if c == '/' {
        Some(TokenView::Operator(Operators::Slash))
    } else if c == '=' {
        Some(TokenView::Operator(Operators::Equal))
    } else if c == '%' {
        Some(TokenView::Operator(Operators::Mod))
    } else if c == '&' {
        Some(TokenView::Operator(Operators::Ampersant))
    } else if c == '|' {
        Some(TokenView::Operator(Operators::Pipe))
    } else if c == '!' {
        Some(TokenView::Operator(Operators::Not))
    } else if c == '?' {
        Some(TokenView::Optional)
    } else if c == ';' {
        Some(TokenView::Semicolon)
    } else if c == ':' {
        Some(TokenView::Colon)
    } else if c == ',' {
        Some(TokenView::Comma)
    } else if c == '.' {
        Some(TokenView::Dot)
    } else if c == '"' {
        Some(TokenView::DoubleQuotes)
    } else if c == '\'' {
        Some(TokenView::Quotes)
    } else if c == '(' {
        Some(TokenView::Parenteses(false))
    } else if c == ')' {
        Some(TokenView::Parenteses(true))
    } else if c == '{' {
        Some(TokenView::CurlyBracket(false))
    } else if c == '}' {
        Some(TokenView::CurlyBracket(true))
    } else if c == '<' {
        Some(TokenView::Operator(Operators::AngleBracket(false)))
    } else if c == '>' {
        Some(TokenView::Operator(Operators::AngleBracket(true)))
    } else if c == '[' {
        Some(TokenView::SquareBracket(false))
    } else if c == ']' {
        Some(TokenView::SquareBracket(true))
    } else if c == ' ' {
        Some(TokenView::Space)
    } else {
        None
    }
}

/// The token that a piece of source text forms.
pub open spec fn parse_token_spec(s: Seq<char>) -> TokenView {
    if s.len() == 1 && single_char_token(s[0]) is Some {
        single_char_token(s[0])->0
    } else if is_ws_str(s) {
        TokenView::Whitespace(s)
    } else {
        TokenView::Text(s)
    }
}

/// The operator that an operator character names on its own: `+ - * / = %
/// & | ! < >`.
pub open spec fn operator_char(c: char) -> Option<Operators> {
    match c {
        '+' => Some(Operators::Plus),
        '-' => Some(Operators::Minus),
        '*' => Some(Operators::Star),
        '/' => Some(Operators::Slash),
        '=' => Some(Operators::Equal),
        '%' => Some(Operators::Mod),
        '&' => Some(Operators::Ampersant),
        '|' => Some(Operators::Pipe),
        '!' => Some(Operators::Not),
        '<' => Some(Operators::AngleBracket(false)),
        '>' => Some(Operators::AngleBracket(true)),
        _ => None,
    }
}

/// A reserved character standing alone is a token of its own: an operator
/// character is that operator, and every reserved character but `\` forms
/// neither text nor whitespace.
pub proof fn law_single_reserved_chars(c: char)
    ensures
        operator_char(c) matches Some(op) ==> parse_token_spec(seq![c]) == TokenView::Operator(op),
        reserved_chars().contains(c) && c != '\\' ==> !(parse_token_spec(seq![c]) is Text)
            && !(parse_token_spec(seq![c]) is Whitespace),
{
    let s = seq![c];
    assert(s.len() == 1 && s[0] == c);
    if reserved_chars().contains(c) {
        let i = choose|i: int| 0 <= i < reserved_chars().len() && reserved_chars()[i] == c;
        assert(0 <= i < 26);
    }
}

/// A string with the characters of `s`.
pub(crate) fn lit(s: &str) -> (r: String)
    ensures
        r@ == s@,
{
    String::from_str(s)
}

/// Turns a piece of source text into a token.
pub fn parse_token(string: &str) -> (t: Tokens)
    ensures
        t@ == parse_token_spec(string@),
{
    if string.unicode_len() == 1 {
        let c = string.get_char(0);
        match c {
            '+' => return Tokens::Operator(Operators::Plus),
            '-' => return Tokens::Operator(Operators::Minus),
            '*' => return Tokens::Operator(Operators::Star),
            '/' => return Tokens::Operator(Operators::Slash),
            '=' => return Tokens::Operator(Operators::Equal),
            '%' => return Tokens::Operator(Operators::Mod),
            '&' => return Tokens::Operator(Operators::Ampersant),
            '|' => return Tokens::Operator(Operators::Pipe),
            '!' => return Tokens::Operator(Operators::Not),
            '?' => return Tokens::Optional,
            ';' => return Tokens::Semicolon,
            ':' => return Tokens::Colon,
            ',' => return Tokens::Comma,
            '.' => return Tokens::Dot,
            '"' => return Tokens::DoubleQuotes,
            '\'' => return Tokens::Quotes,
            '(' => return Tokens::Parenteses(false),
            ')' => return Tokens::Parenteses(true),
            '{' => return Tokens::CurlyBracket(false),
            '}' => return Tokens::CurlyBracket(true),
            '<' => return Tokens::Operator(Operators::AngleBracket(false)),
            '>' => return Tokens::Operator(Operators::AngleBracket(true)),
            '[' => return Tokens::SquareBracket(false),
            ']' => return Tokens::SquareBracket(true),
            ' ' => return Tokens::Space,
            _ => {},
        }
    }
    if is_whitespace(string) {
        Tokens::Whitespace(String::from_str(string))
    } else {
        Tokens::Text(String::from_str(string))
    }
}

/// The source text of a token, as the original printer writes it back.
pub open spec fn deparse_spec(t: TokenView) -> Seq<char> {
    match t {
        TokenView::Operator(Operators::Plus) => seq!['+'],
        TokenView::Operator(Operators::Minus) => seq!['-'],
        TokenView::Operator(Operators::Star) => seq!['*'],
        TokenView::Operator(Operators::Slash) => seq!['/'],
        TokenView::Operator(Operators::Equal) => seq!['='],
        TokenView::Operator(Operators::Mod) => seq!['%'],
        TokenView::Operator(Operators::And) => seq!['&', '&'],
        TokenView::Operator(Operators::Or) => seq!['|', '|'],
        TokenView::Operator(Operators::Ampersant) => seq!['&'],
        TokenView::Operator(Operators::Pipe) => seq!['|'],
        TokenView::Operator(Operators::Not) => seq!['!'],
        TokenView::Optional => seq!['?'],
        TokenView::Semicolon => seq![';'],
        TokenView::Colon => seq![':'],
        TokenView::Comma => seq![','],
        TokenView::Dot => seq!['.'],
        TokenView::DoubleQuotes => seq!['"'],
        TokenView::Quotes => seq!['\''],
        TokenView::Parenteses(false) => seq!['('],
        TokenView::Parenteses(true) => seq![')'],
        TokenView::CurlyBracket(false) => seq!['{'],
        TokenView::CurlyBracket(true) => seq!['}'],
        TokenView::Operator(Operators::AngleBracket(false)) => seq!['<'],
        TokenView::Operator(Operators::AngleBracket(true)) => seq!['>'],
        TokenView::SquareBracket(false) => seq!['['],
        TokenView::SquareBracket(true) => seq![']'],
        TokenView::Space => seq![' '],
        TokenView::Text(s) => s,
        TokenView::DoubleColon => seq![':', ':'],
        _ => seq![],
    }
}

/// Writes a token back as source text.  Whitespace and the remaining
/// operators write nothing; a number literal cannot be written back.
pub fn deparse_token(token: &Tokens) -> (r: String)
    requires
        !(token@ is Number),
    ensures
        r@ == deparse_spec(token@),
{
    match token {
        Tokens::Operator(Operators::Plus) => {
            proof { reveal_strlit("+"); }
            lit("+")
        },
        Tokens::Operator(Operators::Minus) => {
            proof { reveal_strlit("-"); }
            lit("-")
        },
        Tokens::Operator(Operators::Star) => {
            proof { reveal_strlit("*"); }
            lit("*")
        },
        Tokens::Operator(Operators::Slash) => {
            proof { reveal_strlit("/"); }
            lit("/")
        },
        Tokens::Operator(Operators::Equal) => {
            proof { reveal_strlit("="); }
            lit("=")
        },
        Tokens::Operator(Operators::Mod) => {
            proof { reveal_strlit("%"); }
            lit("%")
        },
        Tokens::Operator(Operators::And) => {
            proof { reveal_strlit("&&"); }
            lit("&&")
        },
        Tokens::Operator(Operators::Or) => {
            proof { reveal_strlit("||"); }
            lit("||")
        },
        Tokens::Operator(Operators::Ampersant) => {
            proof { reveal_strlit("&"); }
            lit("&")
        },
        Tokens::Operator(Operators::Pipe) => {
            proof { reveal_strlit("|"); }
            lit("|")
        },
        Tokens::Operator(Operators::Not) => {
            proof { reveal_strlit("!"); }
            lit("!")
        },
        Tokens::Optional => {
            proof { reveal_strlit("?"); }
            lit("?")
        },
        Tokens::Semicolon => {
            proof { reveal_strlit(";"); }
            lit(";")
        },
        Tokens::Colon => {
            proof { reveal_strlit(":"); }
            lit(":")
        },
        Tokens::Comma => {
            proof { reveal_strlit(","); }
            lit(",")
        },
        Tokens::Dot => {
            proof { reveal_strlit("."); }
            lit(".")
        },
        Tokens::DoubleQuotes => {
            proof { reveal_strlit("\""); }
            lit("\"")
        },
        Tokens::Quotes => {
            proof { reveal_strlit("'"); }
            lit("'")
        },
        Tokens::Parenteses(false) => {
            proof { reveal_strlit("("); }
            lit("(")
        },
        Tokens::Parenteses(true) => {
            proof { reveal_strlit(")"); }
            lit(")")
        },
        Tokens::CurlyBracket(false) => {
            proof { reveal_strlit("{"); }
            lit("{")
        },
        Tokens::CurlyBracket(true) => {
            proof { reveal_strlit("}"); }
            lit("}")
        },
        Tokens::Operator(Operators::AngleBracket(false)) => {
            proof { reveal_strlit("<"); }
            lit("<")
        },
        Tokens::Operator(Operators::AngleBracket(true)) => {
            proof { reveal_strlit(">"); }
            lit(">")
        },
        Tokens::SquareBracket(false) => {
            proof { reveal_strlit("["); }
            lit("[")
        },
        Tokens::SquareBracket(true) => {
            proof { reveal_strlit("]"); }
            lit("]")
        },
        Tokens::Space => {
            proof { reveal_strlit(" "); }
            lit(" ")
        },
        Tokens::Text(string) => string.clone(),
        Tokens::DoubleColon => {
            proof { reveal_strlit("::"); }
            lit("::")
        },
        _ => String::new(),
    }
}

/// `std::str::from_utf8`: the text that the bytes encode, when they are valid UTF-8.
#[verifier::external_body]
fn str_from_utf8(b: &[u8]) -> (r: Option<&str>)
    ensures
        r is Some <==> valid_utf8(b@),
        r matches Some(s) ==> s@ == decode_utf8(b@),
{
    match std::str::from_utf8(b) {
        Ok(s) => Some(s),
        Err(_) => None,
    }
}

/// Length in bytes of the piece of source at the start of `b`.
pub open spec fn piece_len(b: Seq<u8>) -> nat {
    let w = ws_len(b, reserved_chars());
    if w == 0 {
        1
    } else {
        w
    }
}

/// The token that the piece at the start of `b` forms.
pub open spec fn piece_token(b: Seq<u8>) -> TokenView {
    parse_token_spec(decode_utf8(b.take(piece_len(b) as int)))
}

/// Reads the token at the start of `line`: returns it and its length in bytes.
pub fn get_token(line: &[u8]) -> (r: (Tokens, usize))
    requires
        line@.len() > 0,
        valid_utf8(line@.take(piece_len(line@) as int)),
    ensures
        r.1 == piece_len(line@),
        r.0@ == piece_token(line@),
{
    let reserved = " +-*/=%;:,.({<[]>})&|!?\"'\\";
    proof {
        reveal_strlit(" +-*/=%;:,.({<[]>})&|!?\"'\\");
        assert(reserved@ =~= reserved_chars());
    }
    let len = find_ws_str(line, reserved);
    let len = if len == 0 {
        1
    } else {
        len
    };
    proof {
        lemma_ws_len(line@, reserved_chars());
    }
    let piece = vstd::slice::slice_subrange(line, 0, len);
    assert(piece@ =~= line@.take(len as int));
    let text = str_from_utf8(piece);
    match text {
        Some(text) => (parse_token(text), len),
        None => {
            assert(false);
            (Tokens::Deleted, len)
        },
    }
}


/// A piece of source is at least one byte long and fits in the bytes.
pub proof fn lemma_piece_len(b: Seq<u8>)
    requires
        b.len() > 0,
    ensures
        1 <= piece_len(b) <= b.len(),
{
    lemma_ws_len(b, reserved_chars());
}

/// The tokens that the lexer reads from `b`, one per piece.
pub open spec fn lex(b: Seq<u8>) -> Seq<TokenView>
    decreases b.len(),
{
    if b.len() == 0 {
        seq![]
    } else {
        proof {
            lemma_piece_len(b);
        }
        seq![piece_token(b)] + lex(b.skip(piece_len(b) as int))
    }
}

/// Whether every piece of `b` is valid UTF-8, so that the lexer can read it.
pub open spec fn lexable(b: Seq<u8>) -> bool
    decreases b.len(),
{
    if b.len() == 0 {
        true
    } else {
        proof {
            lemma_piece_len(b);
        }
        valid_utf8(b.take(piece_len(b) as int)) && lexable(b.skip(piece_len(b) as int))
    }
}

/// The position `(column, line)` after a token of `n` bytes that starts at `cur`:
/// a newline token starts the next line.
pub open spec fn advance(cur: (int, int), n: int, t: TokenView) -> (int, int) {
    if t == TokenView::Whitespace(seq!['\n']) {
        (0, cur.1 + 1)
    } else {
        (cur.0 + n, cur.1)
    }
}

/// The positions after each token of `b`, when the first starts at `cur`.
pub open spec fn positions(b: Seq<u8>, cur: (int, int)) -> Seq<(int, int)>
    decreases b.len(),
{
    if b.len() == 0 {
        seq![]
    } else {
        proof {
            lemma_piece_len(b);
        }
        let next = advance(cur, piece_len(b) as int, piece_token(b));
        seq![next] + positions(b.skip(piece_len(b) as int), next)
    }
}

/// The views of a sequence of tokens.
pub open spec fn views(t: Seq<Tokens>) -> Seq<TokenView> {
    t.map_values(|x: Tokens| x@)
}

/// A sequence of positions as integers.
pub open spec fn pos_ints(p: Seq<(usize, usize)>) -> Seq<(int, int)> {
    p.map_values(|x: (usize, usize)| (x.0 as int, x.1 as int))
}

/// Whether the string is a single newline.
pub(crate) fn is_newline(s: &String) -> (r: bool)
    ensures
        r == (s@ == seq!['\n']),
{
    let t = s.as_str();
    if t.unicode_len() == 1 {
        let c = t.get_char(0);
        if c == '\n' {
            assert(t@ =~= seq!['\n']);
            return true;
        }
    }
    false
}

/// The length in bytes of the piece of source at the start of `line`.
fn piece_length(line: &[u8]) -> (n: usize)
    requires
        line@.len() > 0,
    ensures
        n == piece_len(line@),
{
    let reserved = " +-*/=%;:,.({<[]>})&|!?\"'\\";
    proof {
        reveal_strlit(" +-*/=%;:,.({<[]>})&|!?\"'\\");
        assert(reserved@ =~= reserved_chars());
    }
    let len = find_ws_str(line, reserved);
    if len == 0 {
        1
    } else {
        len
    }
}

/// Whether every piece of `file` is valid UTF-8, so that the lexer can read
/// it (see `lexable`).
pub fn is_lexable(file: &[u8]) -> (r: bool)
    ensures
        r == lexable(file@),
{
    let mut i: usize = 0;
    assert(file@.skip(0) =~= file@);
    while i < file.len()
        invariant
            i <= file@.len(),
            lexable(file@) == lexable(file@.skip(i as int)),
        decreases file@.len() - i,
    {
        let ghost rest_view = file@.skip(i as int);
        let rest = vstd::slice::slice_subrange(file, i, file.len());
        assert(rest@ =~= rest_view);
        proof {
            lemma_piece_len(rest_view);
        }
        let n = piece_length(rest);
        let piece = vstd::slice::slice_subrange(rest, 0, n);
        assert(piece@ =~= rest_view.take(n as int));
        if str_from_utf8(piece).is_none() {
            return false;
        }
        assert(rest_view.skip(n as int) =~= file@.skip(i + n));
        i = i + n;
    }
    assert(file@.skip(i as int) =~= Seq::<u8>::empty());
    true
}

/// Splits `file` into tokens, without the second pass.  Returns the tokens and,
/// for each token, the position `(column, line)` where it starts, followed by
/// the position after the last token.
pub fn tokenize_raw(file: &[u8]) -> (r: (Vec<Tokens>, Vec<(usize, usize)>))
    requires
        lexable(file@),
    ensures
        views(r.0@) == lex(file@),
        pos_ints(r.1@) == seq![(0int, 0int)] + positions(file@, (0, 0)),
        r.1@.len() == r.0@.len() + 1,
{
    let mut tokens: Vec<Tokens> = Vec::new();
    let mut text_pos: Vec<(usize, usize)> = Vec::new();
    text_pos.push((0, 0));
    let mut i: usize = 0;
    assert(file@.skip(0) =~= file@);
    assert(pos_ints(text_pos@) =~= seq![(0int, 0int)]);
    while i < file.len()
        invariant
            i <= file@.len(),
            lexable(file@.skip(i as int)),
            views(tokens@) + lex(file@.skip(i as int)) == lex(file@),
            text_pos@.len() == tokens@.len() + 1,
            text_pos@.last().0 <= i,
            text_pos@.last().1 <= i,
            pos_ints(text_pos@) + positions(
                file@.skip(i as int),
                (text_pos@.last().0 as int, text_pos@.last().1 as int),
            ) == seq![(0int, 0int)] + positions(file@, (0, 0)),
        decreases file@.len() - i,
    {
        let ghost rest_view = file@.skip(i as int);
        let rest = vstd::slice::slice_subrange(file, i, file.len());
        assert(rest@ =~= rest_view);
        proof {
            lemma_piece_len(rest_view);
        }
        let res = get_token(rest);
        let n = res.1;
        let prev = text_pos[text_pos.len() - 1];
        let mut entry = (prev.0 + n, prev.1);
        if let Tokens::Whitespace(txt) = &res.0 {
            if is_newline(txt) {
                entry = (0, prev.1 + 1);
            }
        }
        let ghost old_tokens = tokens@;
        let ghost old_pos = text_pos@;
        let ghost tv = res.0@;
        proof {
            assert(rest_view.skip(n as int) =~= file@.skip(i + n));
            assert(views(old_tokens.push(res.0)) =~= views(old_tokens).push(tv));
            assert(pos_ints(old_pos.push(entry)) =~= pos_ints(old_pos).push(
                (entry.0 as int, entry.1 as int),
            ));
        }
        text_pos.push(entry);
        tokens.push(res.0);
        i = i + n;
        proof {
            assert(views(tokens@) + lex(file@.skip(i as int)) =~= views(old_tokens) + lex(
                rest_view,
            ));
            assert(pos_ints(text_pos@) + positions(
                file@.skip(i as int),
                (entry.0 as int, entry.1 as int),
            ) =~= pos_ints(old_pos) + positions(
                rest_view,
                (prev.0 as int, prev.1 as int),
            ));
        }
    }
    assert(file@.skip(i as int) =~= Seq::<u8>::empty());
    assert(views(tokens@) =~= views(tokens@) + lex(file@.skip(i as int)));
    assert(pos_ints(text_pos@) =~= pos_ints(text_pos@) + positions(
        file@.skip(i as int),
        (text_pos@.last().0 as int, text_pos@.last().1 as int),
    ));
    (tokens, text_pos)
}


/// Whether two strings hold the same characters.
pub fn text_eq(a: &str, b: &str) -> (r: bool)
    ensures
        r == (a@ == b@),
{
    let n = a.unicode_len();
    if n != b.unicode_len() {
        return false;
    }
    let mut i: usize = 0;
    while i < n
        invariant
            n == a@.len() == b@.len(),
            i <= n,
            forall|j: int| 0 <= j < i ==> a@[j] == b@[j],
        decreases n - i,
    {
        if a.get_char(i) != b.get_char(i) {
            return false;
        }
        i = i + 1;
    }
    assert(a@ =~= b@);
    true
}


/// Whether two optional texts hold the same characters.
fn opt_text_eq(a: &Option<String>, b: &Option<String>) -> (r: bool)
    ensures
        r == (match (a, b) {
            (Some(x), Some(y)) => x@ == y@,
            (None, None) => true,
            _ => false,
        }),
{
    match (a, b) {
        (Some(x), Some(y)) => text_eq(x.as_str(), y.as_str()),
        (None, None) => true,
        _ => false,
    }
}

/// Whether two tokens are the same token.
pub fn token_eq(a: &Tokens, b: &Tokens) -> (r: bool)
    ensures
        r == (a@ == b@),
{
    match (a, b) {
        (Tokens::Parenteses(x), Tokens::Parenteses(y)) => *x == *y,
        (Tokens::CurlyBracket(x), Tokens::CurlyBracket(y)) => *x == *y,
        (Tokens::SquareBracket(x), Tokens::SquareBracket(y)) => *x == *y,
        (Tokens::Operator(x), Tokens::Operator(y)) => *x == *y,
        (Tokens::Colon, Tokens::Colon) => true,
        (Tokens::Dot, Tokens::Dot) => true,
        (Tokens::Semicolon, Tokens::Semicolon) => true,
        (Tokens::Comma, Tokens::Comma) => true,
        (Tokens::Quotes, Tokens::Quotes) => true,
        (Tokens::DoubleQuotes, Tokens::DoubleQuotes) => true,
        (Tokens::Optional, Tokens::Optional) => true,
        (Tokens::Space, Tokens::Space) => true,
        (Tokens::String(x), Tokens::String(y)) => text_eq(x.as_str(), y.as_str()),
        (Tokens::Char(x), Tokens::Char(y)) => *x == *y,
        (Tokens::Whitespace(x), Tokens::Whitespace(y)) => text_eq(x.as_str(), y.as_str()),
        (Tokens::Text(x), Tokens::Text(y)) => text_eq(x.as_str(), y.as_str()),
        (Tokens::DoubleColon, Tokens::DoubleColon) => true,
        (Tokens::Number(x, k), Tokens::Number(y, l)) => {
            x.whole == y.whole && opt_text_eq(&x.fraction, &y.fraction) && *k == *l
        },
        (Tokens::Tab, Tokens::Tab) => true,
        (Tokens::Deleted, Tokens::Deleted) => true,
        (Tokens::EndOfFile, Tokens::EndOfFile) => true,
        _ => false,
    }
}

/// Writing back the token of a piece of text that is not whitespace gives
/// the piece again (a single space included).
pub proof fn law_deparse_parse(s: Seq<char>)
    requires
        !is_ws_str(s) || s == seq![' '],
    ensures
        deparse_spec(parse_token_spec(s)) == s,
{
    if s.len() == 1 && single_char_token(s[0]) is Some {
        assert(s =~= seq![s[0]]);
    }
}

} // verus!
