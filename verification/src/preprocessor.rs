//! The second pass of the lexer: reads number, string and character
//! literals, joins two-character operators, drops whitespace and comments.
//!
//! The pass walks the tokens once, from the first to the end-of-file marker
//! that it appends.  Each step looks at one token and may replace it, mark
//! later tokens as deleted, and report one error; then the deleted tokens are
//! cleared away together with their positions.
use vstd::prelude::*;
use crate::lexer::{lex, lexable, pos_ints, positions, tokenize_raw, deparse_spec, deparse_token, is_newline, is_ws_str, is_whitespace, lit, views, Line, NumberLit, NumberView, Operators, TokenView, Tokens};

verus! {

/// Errors found while reading literals.
#[derive(Debug)]
pub enum Errors {
    /// a number that does not parse
    InvalidNumber(Line, String),
    /// a character literal that does not unescape, with the reason
    InvalidChar(Line, String),
    /// a character literal of more than one byte
    CharacterTooLong(Line, String),
}

/// The mathematical value of an error.
pub enum ErrorsView {
    InvalidNumber(Line, Seq<char>),
    InvalidChar(Line, Seq<char>),
    CharacterTooLong(Line, Seq<char>),
}

impl View for Errors {
    type V = ErrorsView;

    open spec fn view(&self) -> ErrorsView {
        match self {
            Errors::InvalidNumber(l, s) => ErrorsView::InvalidNumber(*l, s@),
            Errors::InvalidChar(l, s) => ErrorsView::InvalidChar(*l, s@),
            Errors::CharacterTooLong(l, s) => ErrorsView::CharacterTooLong(*l, s@),
        }
    }
}

/// The error of the second pass as a whole, which it never returns.
pub struct LexingErr {}

/// The views of a sequence of errors.
pub open spec fn err_views(e: Seq<Errors>) -> Seq<ErrorsView> {
    e.map_values(|x: Errors| x@)
}

/// What `snailquote::unescape` returns for a string: the unescaped text, or
/// the message of its error.
pub uninterp spec fn snail_unescape(s: Seq<char>) -> Result<Seq<char>, Seq<char>>;

/// `snailquote::unescape`, with its error turned into its message.  Its result
/// is whatever that function computes from `s`.
#[verifier::external_body]
fn unescape(s: &str) -> (r: Result<String, String>)
    ensures
        match r {
            Ok(v) => snail_unescape(s@) == Ok::<Seq<char>, Seq<char>>(v@),
            Err(e) => snail_unescape(s@) == Err::<Seq<char>, Seq<char>>(e@),
        },
{
    match snailquote::unescape(s) {
        Ok(v) => Ok(v),
        Err(e) => Err(e.to_string()),
    }
}

/// The first character of `s`.
pub open spec fn first_char(s: Seq<char>) -> char {
    s[0]
}

/// The last character of `s`.
pub open spec fn last_char(s: Seq<char>) -> char {
    s.last()
}

/// A character of one byte in UTF-8.
pub open spec fn is_ascii_char(c: char) -> bool {
    (c as u32) < 128
}

/// An ASCII decimal digit.
pub open spec fn is_digit(c: char) -> bool {
    48 <= (c as u32) <= 57
}

/// The value of a decimal digit.
pub open spec fn digit_value(c: char) -> nat {
    ((c as u32) - 48) as nat
}

/// The value of a string of decimal digits.
pub open spec fn dec_value(s: Seq<char>) -> nat
    decreases s.len(),
{
    if s.len() == 0 {
        0
    } else {
        dec_value(s.drop_last()) * 10 + digit_value(s.last())
    }
}

/// What `str::parse::<usize>` gives for a string that starts with a digit:
/// its value when it is all digits and fits in a `usize`.
pub open spec fn parse_usize(s: Seq<char>) -> Option<nat> {
    if s.len() > 0 && (forall|i: int| 0 <= i < s.len() ==> is_digit(#[trigger] s[i])) && dec_value(
        s,
    ) <= usize::MAX {
        Some(dec_value(s))
    } else {
        None
    }
}

/// Whether `s` is digits up to index `k`, and after it either nothing or an
/// exponent mark followed by at least one digit.
pub open spec fn frac_ok_at(s: Seq<char>, k: int) -> bool {
    &&& 0 <= k <= s.len()
    &&& forall|i: int| 0 <= i < k ==> is_digit(#[trigger] s[i])
    &&& k == s.len() || (k + 1 < s.len() && (s[k] == 'e' || s[k] == 'E') && forall|i: int|
        k < i < s.len() ==> is_digit(#[trigger] s[i]))
}

/// Whether `"0." + s` is a valid `f64` for `str::parse` when `s` holds no sign:
/// digits, optionally followed by `e` or `E` and at least one digit.
pub open spec fn is_float_frac(s: Seq<char>) -> bool {
    exists|k: int| frac_ok_at(s, k)
}

/// The position of token `idx`, when the positions reach it.
pub open spec fn line_at(lines: Seq<(usize, usize)>, idx: int) -> Line {
    Line { line: lines[idx].1, column: lines[idx].0 }
}

/// The outcome of one step of the pass.
pub struct StepView {
    pub toks: Seq<TokenView>,
    pub adv: int,
    pub err: Option<ErrorsView>,
}

/// A step that changes nothing and moves on by one token.
pub open spec fn keep(toks: Seq<TokenView>) -> Option<StepView> {
    Some(StepView { toks, adv: 1, err: None })
}

/// A step that reports `e` at token `idx`; it fails when `idx` has no position.
pub open spec fn report(
    toks: Seq<TokenView>,
    lines: Seq<(usize, usize)>,
    idx: int,
    e: ErrorsView,
) -> Option<StepView> {
    if idx < lines.len() {
        Some(StepView { toks, adv: 1, err: Some(e) })
    } else {
        None
    }
}

/// The first index from `from` on where `toks` holds `t`, or the length.
pub open spec fn find_tok(toks: Seq<TokenView>, from: int, t: TokenView) -> int
    decreases toks.len() - from,
{
    if from >= toks.len() {
        toks.len() as int
    } else if toks[from] == t {
        from
    } else {
        find_tok(toks, from + 1, t)
    }
}

/// The source text of the tokens `from..to`, written back one after another.
pub open spec fn concat_deparse(toks: Seq<TokenView>, from: int, to: int) -> Seq<char>
    decreases to - from,
{
    if to <= from {
        seq![]
    } else {
        concat_deparse(toks, from, to - 1) + deparse_spec(toks[to - 1])
    }
}

/// Whether no token in `from..to` is a number literal.
pub open spec fn no_number(toks: Seq<TokenView>, from: int, to: int) -> bool {
    forall|k: int| from <= k < to ==> !(#[trigger] toks[k] is Number)
}

/// `toks` with the tokens `from..to` marked deleted.
pub open spec fn delete_range(toks: Seq<TokenView>, from: int, to: int) -> Seq<TokenView> {
    Seq::new(toks.len(), |k: int| if from <= k < to { TokenView::Deleted } else { toks[k] })
}

/// The step on a piece of text at `idx`: a number literal, a whitespace run, or a word.
pub open spec fn text_step(
    toks: Seq<TokenView>,
    lines: Seq<(usize, usize)>,
    idx: int,
    txt: Seq<char>,
) -> Option<StepView> {
    let n = toks.len() as int;
    if txt.len() == 0 {
        None
    } else if is_digit(txt[0]) {
        if idx + 1 >= n {
            None
        } else if toks[idx + 1] is Dot {
            match parse_usize(txt) {
                None => report(toks, lines, idx, ErrorsView::InvalidNumber(line_at(lines, idx), txt)),
                Some(w) => if idx + 2 >= n {
                    None
                } else {
                    match toks[idx + 2] {
                        TokenView::Text(t2) => if is_float_frac(t2) {
                            Some(
                                StepView {
                                    toks: toks.update(
                                        idx,
                                        TokenView::Number(
                                            NumberView { whole: w, fraction: Some(t2) },
                                            'f',
                                        ),
                                    ).update(idx + 1, TokenView::Deleted).update(
                                        idx + 2,
                                        TokenView::Deleted,
                                    ),
                                    adv: 2,
                                    err: None,
                                },
                            )
                        } else {
                            report(
                                toks,
                                lines,
                                idx,
                                ErrorsView::InvalidNumber(
                                    line_at(lines, idx),
                                    txt + seq!['.'] + t2,
                                ),
                            )
                        },
                        _ => keep(toks),
                    }
                },
            }
        } else if is_digit(txt.last()) {
            match parse_usize(txt) {
                Some(w) => Some(
                    StepView {
                        toks: toks.update(
                            idx,
                            TokenView::Number(NumberView { whole: w, fraction: None }, 'n'),
                        ),
                        adv: 1,
                        err: None,
                    },
                ),
                None => report(toks, lines, idx, ErrorsView::InvalidNumber(line_at(lines, idx), txt)),
            }
        } else if !is_ascii_char(txt.last()) {
            None
        } else {
            match parse_usize(txt.drop_last()) {
                Some(w) => Some(
                    StepView {
                        toks: toks.update(
                            idx,
                            TokenView::Number(NumberView { whole: w, fraction: None }, last_char(txt)),
                        ),
                        adv: 1,
                        err: None,
                    },
                ),
                None => report(toks, lines, idx, ErrorsView::InvalidNumber(line_at(lines, idx), txt)),
            }
        }
    } else if is_ws_str(txt) {
        Some(StepView { toks: toks.update(idx, TokenView::Deleted), adv: 1, err: None })
    } else {
        keep(toks)
    }
}

/// The step on a double quote at `idx`: the tokens up to the closing quote
/// become the content of a string literal.
pub open spec fn string_step(toks: Seq<TokenView>, idx: int) -> Option<StepView> {
    let n = toks.len() as int;
    let j = find_tok(toks, idx + 1, TokenView::DoubleQuotes);
    if idx + 1 >= n || !no_number(toks, idx + 1, j) {
        None
    } else if j == n {
        Some(
            StepView {
                toks: delete_range(toks, idx + 1, n).update(
                    idx,
                    TokenView::String(concat_deparse(toks, idx + 1, n)),
                ),
                adv: 1,
                err: None,
            },
        )
    } else {
        Some(
            StepView {
                toks: delete_range(toks, idx + 1, j + 1).update(
                    idx,
                    TokenView::String(concat_deparse(toks, idx + 1, j)),
                ),
                adv: 1,
                err: None,
            },
        )
    }
}

/// The step on a single quote at `idx`: the tokens up to the closing quote
/// are unescaped as a character literal.
pub open spec fn char_step(toks: Seq<TokenView>, lines: Seq<(usize, usize)>, idx: int) -> Option<
    StepView,
> {
    let n = toks.len() as int;
    let j = find_tok(toks, idx + 1, TokenView::Quotes);
    let body = seq!['"'] + concat_deparse(toks, idx + 1, j);
    if idx + 1 >= n || !no_number(toks, idx + 1, j) {
        None
    } else if j == n {
        Some(
            StepView {
                toks: delete_range(toks, idx + 1, n).update(idx, TokenView::String(body)),
                adv: 1,
                err: None,
            },
        )
    } else {
        let cleared = delete_range(toks, idx + 1, j + 1);
        let quoted = body + seq!['"'];
        match snail_unescape(quoted) {
            Ok(v) => if v.len() == 1 && is_ascii_char(v[0]) {
                Some(StepView { toks: cleared.update(idx, TokenView::Char(first_char(v))), adv: 1, err: None })
            } else {
                report(cleared, lines, idx, ErrorsView::CharacterTooLong(line_at(lines, idx), v))
            },
            Err(m) => report(
                cleared.update(idx, TokenView::String(quoted)),
                lines,
                idx,
                ErrorsView::InvalidChar(line_at(lines, idx), m),
            ),
        }
    }
}

/// Where a block comment that starts at `i` closes: the index of its `*`.
/// `None` when the tokens end first.
pub open spec fn block_end(toks: Seq<TokenView>, i: int) -> Option<int>
    decreases toks.len() - i,
{
    if i < 0 || i >= toks.len() {
        None
    } else if toks[i] == TokenView::Operator(Operators::Star) {
        if i + 1 >= toks.len() {
            None
        } else if toks[i + 1] == TokenView::Operator(Operators::Slash) {
            Some(i)
        } else {
            block_end(toks, i + 1)
        }
    } else {
        block_end(toks, i + 1)
    }
}

/// A step that replaces the operator at `idx` with `joined` and deletes the next token.
pub open spec fn join_op(toks: Seq<TokenView>, idx: int, joined: Operators) -> Option<StepView> {
    Some(
        StepView {
            toks: toks.update(idx, TokenView::Operator(joined)).update(
                idx + 1,
                TokenView::Deleted,
            ),
            adv: 1,
            err: None,
        },
    )
}

/// The newline token.
pub open spec fn newline() -> TokenView {
    TokenView::Whitespace(seq!['\n'])
}

/// The step on an operator at `idx`: joins two-character operators and skips comments.
pub open spec fn op_step(toks: Seq<TokenView>, idx: int, op: Operators) -> Option<StepView> {
    let n = toks.len() as int;
    let looks_ahead = match op {
        Operators::Plus | Operators::Minus | Operators::Star | Operators::Slash | Operators::Not
        | Operators::Equal | Operators::Pipe | Operators::Ampersant | Operators::AngleBracket(
            _,
        ) => true,
        _ => false,
    };
    if looks_ahead && idx + 1 >= n {
        None
    } else {
        let next = toks[idx + 1];
        let eq = TokenView::Operator(Operators::Equal);
        match op {
            Operators::Plus => if next == eq {
                join_op(toks, idx, Operators::AddEq)
            } else {
                keep(toks)
            },
            Operators::Minus => if next == eq {
                join_op(toks, idx, Operators::SubEq)
            } else {
                keep(toks)
            },
            Operators::Star => if next == eq {
                join_op(toks, idx, Operators::MulEq)
            } else {
                keep(toks)
            },
            Operators::Slash => if next == eq {
                join_op(toks, idx, Operators::DivEq)
            } else if next == TokenView::Operator(Operators::Slash) {
                let k = find_tok(toks, idx + 1, newline());
                if k >= n {
                    None
                } else {
                    Some(StepView { toks: delete_range(toks, idx, k), adv: k - idx, err: None })
                }
            } else if next == TokenView::Operator(Operators::Star) {
                match block_end(toks, idx) {
                    None => None,
                    Some(e) => Some(
                        StepView { toks: delete_range(toks, idx, e + 2), adv: e - idx + 2, err: None },
                    ),
                }
            } else {
                keep(toks)
            },
            Operators::Not => if next == eq {
                join_op(toks, idx, Operators::NotEqual)
            } else {
                keep(toks)
            },
            Operators::Equal => if next == eq {
                join_op(toks, idx, Operators::DoubleEq)
            } else {
                keep(toks)
            },
            Operators::Pipe => if next == TokenView::Operator(Operators::Pipe) {
                join_op(toks, idx, Operators::Or)
            } else {
                keep(toks)
            },
            Operators::Ampersant => if next == TokenView::Operator(Operators::Ampersant) {
                join_op(toks, idx, Operators::And)
            } else {
                keep(toks)
            },
            Operators::AngleBracket(b) => if next == eq {
                join_op(toks, idx, if b { Operators::LessEq } else { Operators::MoreEq })
            } else {
                keep(toks)
            },
            _ => keep(toks),
        }
    }
}

/// One step of the pass at token `idx`; `None` when the step fails.
pub open spec fn step(toks: Seq<TokenView>, lines: Seq<(usize, usize)>, idx: int) -> Option<
    StepView,
> {
    let n = toks.len() as int;
    match toks[idx] {
        TokenView::Text(txt) => text_step(toks, lines, idx, txt),
        TokenView::Whitespace(_) => Some(
            StepView { toks: toks.update(idx, TokenView::Deleted), adv: 1, err: None },
        ),
        TokenView::DoubleQuotes => string_step(toks, idx),
        TokenView::Quotes => char_step(toks, lines, idx),
        TokenView::Space => Some(
            StepView { toks: toks.update(idx, TokenView::Deleted), adv: 1, err: None },
        ),
        TokenView::Colon => if idx + 1 >= n {
            None
        } else if toks[idx + 1] is Colon {
            Some(
                StepView {
                    toks: toks.update(idx, TokenView::DoubleColon).update(
                        idx + 1,
                        TokenView::Deleted,
                    ),
                    adv: 1,
                    err: None,
                },
            )
        } else {
            keep(toks)
        },
        TokenView::Semicolon => if n != idx + 1 && toks[idx + 1] is Semicolon {
            Some(StepView { toks: toks.update(idx + 1, TokenView::Deleted), adv: 1, err: None })
        } else {
            keep(toks)
        },
        TokenView::Operator(op) => op_step(toks, idx, op),
        _ => keep(toks),
    }
}

/// The errors a step reports, as a sequence.
pub open spec fn err_seq(e: Option<ErrorsView>) -> Seq<ErrorsView> {
    match e {
        Some(x) => seq![x],
        None => seq![],
    }
}

/// The pass from token `idx` on: the tokens at the end and the errors
/// reported, after `errs`; `None` when a step fails.
pub open spec fn run(
    toks: Seq<TokenView>,
    lines: Seq<(usize, usize)>,
    idx: int,
    errs: Seq<ErrorsView>,
) -> Option<(Seq<TokenView>, Seq<ErrorsView>)>
    decreases (if idx < toks.len() {
        toks.len() - idx
    } else {
        0
    }),
{
    if idx < 0 || idx >= toks.len() {
        Some((toks, errs))
    } else {
        match step(toks, lines, idx) {
            None => None,
            Some(s) => if s.adv >= 1 && s.toks.len() == toks.len() {
                run(s.toks, lines, idx + s.adv, errs + err_seq(s.err))
            } else {
                None
            },
        }
    }
}

/// The tokens that are not deleted.
pub open spec fn kept_tokens(toks: Seq<TokenView>) -> Seq<TokenView>
    decreases toks.len(),
{
    if toks.len() == 0 {
        seq![]
    } else if toks.last() is Deleted {
        kept_tokens(toks.drop_last())
    } else {
        kept_tokens(toks.drop_last()).push(toks.last())
    }
}

/// The positions of the tokens that are not deleted.
pub open spec fn kept_lines(toks: Seq<TokenView>, lines: Seq<(usize, usize)>) -> Seq<(usize, usize)>
    decreases toks.len(),
{
    if toks.len() == 0 {
        seq![]
    } else if toks.last() is Deleted {
        kept_lines(toks.drop_last(), lines)
    } else {
        kept_lines(toks.drop_last(), lines).push(lines[toks.len() - 1])
    }
}

/// Whether every token that is not deleted has a position.
pub open spec fn kept_have_lines(toks: Seq<TokenView>, lines: Seq<(usize, usize)>) -> bool {
    forall|i: int| 0 <= i < toks.len() && !(#[trigger] toks[i] is Deleted) ==> i < lines.len()
}

/// The whole second pass over `toks` with the positions `lines`: the tokens
/// and positions that remain and the errors reported; `None` when it fails.
pub open spec fn refactor_spec(toks: Seq<TokenView>, lines: Seq<(usize, usize)>) -> Option<
    (Seq<TokenView>, Seq<(usize, usize)>, Seq<ErrorsView>),
> {
    match run(toks.push(TokenView::EndOfFile), lines, 0, seq![]) {
        None => None,
        Some((t, e)) => if kept_have_lines(t, lines) {
            Some((kept_tokens(t), kept_lines(t, lines), e))
        } else {
            None
        },
    }
}


/// The value of a longer prefix of digits is at least that of a shorter one.
proof fn lemma_dec_value_mono(s: Seq<char>, k: int, j: int)
    requires
        0 <= k <= j <= s.len(),
    ensures
        dec_value(s.take(k)) <= dec_value(s.take(j)),
    decreases j - k,
{
    if k < j {
        lemma_dec_value_mono(s, k, j - 1);
        assert(s.take(j).drop_last() =~= s.take(j - 1));
    }
}

/// Parses the first `len` characters of `s` as a `usize`, as `str::parse` does
/// for text that starts with a digit.
pub(crate) fn parse_digits(s: &str, len: usize) -> (r: Option<usize>)
    requires
        len <= s@.len(),
    ensures
        match r {
            Some(v) => parse_usize(s@.take(len as int)) == Some(v as nat),
            None => parse_usize(s@.take(len as int)) is None,
        },
{
    let ghost t = s@.take(len as int);
    if len == 0 {
        return None;
    }
    let mut v: usize = 0;
    let mut i: usize = 0;
    while i < len
        invariant
            i <= len <= s@.len(),
            t == s@.take(len as int),
            forall|j: int| 0 <= j < i ==> is_digit(#[trigger] t[j]),
            v as nat == dec_value(t.take(i as int)),
        decreases len - i,
    {
        let c = s.get_char(i);
        assert(c == t[i as int]);
        let u = c as u32;
        if u < 48 || u > 57 {
            return None;
        }
        let d = (u - 48) as usize;
        proof {
            assert(t.take(i + 1).drop_last() =~= t.take(i as int));
            assert(t.take(i + 1).last() == c);
        }
        match v.checked_mul(10) {
            Some(m) => match m.checked_add(d) {
                Some(nv) => {
                    v = nv;
                },
                None => {
                    proof {
                        lemma_dec_value_mono(t, i + 1, len as int);
                        assert(t.take(len as int) =~= t);
                    }
                    return None;
                },
            },
            None => {
                proof {
                    lemma_dec_value_mono(t, i + 1, len as int);
                    assert(t.take(len as int) =~= t);
                }
                return None;
            },
        }
        i = i + 1;
    }
    assert(t.take(len as int) =~= t);
    Some(v)
}

/// Whether `c` is an ASCII decimal digit.
fn char_is_digit(c: char) -> (r: bool)
    ensures
        r == is_digit(c),
{
    let u = c as u32;
    48 <= u && u <= 57
}

/// Whether `"0." + s` parses as an `f64`, for `s` without signs.
pub(crate) fn float_frac_ok(s: &str) -> (r: bool)
    ensures
        r == is_float_frac(s@),
{
    let n = s.unicode_len();
    let mut k: usize = 0;
    while k < n && char_is_digit(s.get_char(k))
        invariant
            k <= n == s@.len(),
            forall|i: int| 0 <= i < k ==> is_digit(#[trigger] s@[i]),
        decreases n - k,
    {
        k = k + 1;
    }
    if k == n {
        assert(frac_ok_at(s@, k as int));
        return true;
    }
    assert(!is_digit(s@[k as int]));
    let c = s.get_char(k);
    let mut ok = (c == 'e' || c == 'E') && k + 1 < n;
    let mut i = k + 1;
    while i < n
        invariant
            k < n == s@.len(),
            c == s@[k as int],
            k + 1 <= i <= n,
            forall|j: int| 0 <= j < k ==> is_digit(#[trigger] s@[j]),
            ok == ((c == 'e' || c == 'E') && k + 1 < n && forall|j: int|
                k < j < i ==> is_digit(#[trigger] s@[j])),
        decreases n - i,
    {
        if !char_is_digit(s.get_char(i)) {
            ok = false;
        }
        i = i + 1;
    }
    proof {
        if ok {
            assert(frac_ok_at(s@, k as int));
        } else {
            assert forall|k2: int| !frac_ok_at(s@, k2) by {
                if frac_ok_at(s@, k2) {
                    if k2 > k {
                        assert(is_digit(s@[k as int]));
                    } else if k2 < k {
                        assert(is_digit(s@[k2]));
                    }
                }
            }
        }
    }
    ok
}

/// The views of `t` after replacing element `i` by `x`.
pub(crate) proof fn lemma_views_update(t: Seq<Tokens>, i: int, x: Tokens)
    requires
        0 <= i < t.len(),
    ensures
        views(t.update(i, x)) == views(t).update(i, x@),
{
    assert(views(t.update(i, x)) =~= views(t).update(i, x@));
}

/// Marks token `idx` as deleted.
fn remove(tokens: &mut Vec<Tokens>, idx: usize) -> (r: usize)
    requires
        idx < old(tokens)@.len(),
    ensures
        views(final(tokens)@) == views(old(tokens)@).update(idx as int, TokenView::Deleted),
        final(tokens)@.len() == old(tokens)@.len(),
        r == 0,
{
    proof {
        lemma_views_update(tokens@, idx as int, Tokens::Deleted);
    }
    tokens.set(idx, Tokens::Deleted);
    0
}

/// Marks the tokens `start..end` as deleted.
fn remove_range(tokens: &mut Vec<Tokens>, start: usize, end: usize) -> (r: usize)
    requires
        end <= old(tokens)@.len(),
    ensures
        views(final(tokens)@) == delete_range(views(old(tokens)@), start as int, end as int),
        final(tokens)@.len() == old(tokens)@.len(),
        r == 0,
{
    let ghost orig = views(tokens@);
    let mut i = start;
    if start >= end {
        assert(views(tokens@) =~= delete_range(orig, start as int, end as int));
        return 0;
    }
    while i < end
        invariant
            start <= i <= end <= tokens@.len(),
            orig.len() == tokens@.len(),
            views(tokens@) == delete_range(orig, start as int, i as int),
        decreases end - i,
    {
        remove(tokens, i);
        i = i + 1;
        assert(views(tokens@) =~= delete_range(orig, start as int, i as int));
    }
    0
}

/// Whether token `idx` exists, as the original checks before looking ahead.
fn not_end(idx: usize, tokens: &Vec<Tokens>) -> (r: bool)
    ensures
        r == (idx < tokens@.len()),
{
    idx < tokens.len()
}

/// Whether the views of `new_t` and `new_e` are what one step at `idx` makes of `old_t` and `old_e`.
pub open spec fn stepped(
    old_t: Seq<TokenView>,
    new_t: Seq<TokenView>,
    old_e: Seq<ErrorsView>,
    new_e: Seq<ErrorsView>,
    lines: Seq<(usize, usize)>,
    idx: int,
    adv: int,
) -> bool {
    let s = step(old_t, lines, idx)->0;
    &&& new_t == s.toks
    &&& new_e == old_e + err_seq(s.err)
    &&& adv == s.adv
}

/// The step on a piece of text.
fn process_text(
    tokens: &mut Vec<Tokens>,
    idx: usize,
    lines: &Vec<(usize, usize)>,
    errors: &mut Vec<Errors>,
    txt: &String,
) -> (adv: usize)
    requires
        idx < old(tokens)@.len(),
        views(old(tokens)@)[idx as int] == TokenView::Text(txt@),
        step(views(old(tokens)@), lines@, idx as int) is Some,
    ensures
        stepped(
            views(old(tokens)@),
            views(final(tokens)@),
            err_views(old(errors)@),
            err_views(final(errors)@),
            lines@,
            idx as int,
            adv as int,
        ),
        final(tokens)@.len() == old(tokens)@.len(),
{
    let ghost t0 = views(tokens@);
    let ghost e0 = err_views(errors@);
    let n_tok = tokens.len();
    assert(n_tok == t0.len());
    let s = txt.as_str();
    let n = s.unicode_len();
    assert(step(t0, lines@, idx as int) == text_step(t0, lines@, idx as int, txt@));
    let first = s.get_char(0);
    let fu = first as u32;
    if 48 <= fu && fu <= 57 {
        assert(is_digit(txt@[0]));
        assert(idx + 1 < t0.len());
        let next_is_dot = matches!(tokens[idx + 1], Tokens::Dot);
        assert(next_is_dot == (t0[idx + 1] is Dot));
        if next_is_dot {
            let whole = parse_digits(s, n);
            assert(s@.take(n as int) =~= s@);
            match whole {
                None => {
                    let e = Errors::InvalidNumber(Line::from_pos(lines[idx]), txt.clone());
                    errors.push(e);
                    assert(err_views(errors@) =~= e0 + err_seq(Some(e@)));
                    return 1;
                },
                Some(w) => {
                    assert(idx + 2 < t0.len());
                    let third = tokens[idx + 2].copy();
                    match &third {
                        Tokens::Text(txt2) => {
                            if float_frac_ok(txt2.as_str()) {
                                let num = Tokens::Number(
                                    NumberLit { whole: w, fraction: Some(txt2.clone()) },
                                    'f',
                                );
                                proof {
                                    lemma_views_update(tokens@, idx as int, num);
                                }
                                tokens.set(idx, num);
                                remove(tokens, idx + 1);
                                remove(tokens, idx + 2);
                                return 2;
                            } else {
                                let mut res = txt.clone();
                                proof {
                                    reveal_strlit(".");
                                }
                                res.append(".");
                                res.append(txt2.as_str());
                                assert(res@ =~= txt@ + seq!['.'] + txt2@);
                                let e = Errors::InvalidNumber(Line::from_pos(lines[idx]), res);
                                errors.push(e);
                                assert(err_views(errors@) =~= e0 + err_seq(Some(e@)));
                                return 1;
                            }
                        },
                        _ => {
                            return 1;
                        },
                    }
                },
            }
        } else {
            let last = s.get_char(n - 1);
            assert(last == s@.last());
            let lu = last as u32;
            if 48 <= lu && lu <= 57 {
                let whole = parse_digits(s, n);
                assert(s@.take(n as int) =~= s@);
                match whole {
                    Some(w) => {
                        let num = Tokens::Number(NumberLit { whole: w, fraction: None }, 'n');
                        proof {
                            lemma_views_update(tokens@, idx as int, num);
                        }
                        tokens.set(idx, num);
                    },
                    None => {
                        let e = Errors::InvalidNumber(Line::from_pos(lines[idx]), txt.clone());
                        errors.push(e);
                        assert(err_views(errors@) =~= e0 + err_seq(Some(e@)));
                    },
                }
            } else {
                let whole = parse_digits(s, n - 1);
                assert(s@.take(n - 1) =~= s@.drop_last());
                match whole {
                    Some(w) => {
                        let num = Tokens::Number(NumberLit { whole: w, fraction: None }, last);
                        proof {
                            lemma_views_update(tokens@, idx as int, num);
                        }
                        tokens.set(idx, num);
                    },
                    None => {
                        let e = Errors::InvalidNumber(Line::from_pos(lines[idx]), txt.clone());
                        errors.push(e);
                        assert(err_views(errors@) =~= e0 + err_seq(Some(e@)));
                    },
                }
            }
            return 1;
        }
    }
    if is_whitespace(s) {
        remove(tokens, idx);
        return 1;
    }
    1
}


/// `find_tok` gives the first index from `from` on where `t` occurs.
pub(crate) proof fn lemma_find_tok(toks: Seq<TokenView>, from: int, t: TokenView)
    requires
        0 <= from <= toks.len(),
    ensures
        from <= find_tok(toks, from, t) <= toks.len(),
        find_tok(toks, from, t) < toks.len() ==> toks[find_tok(toks, from, t)] == t,
        forall|k: int| from <= k < find_tok(toks, from, t) ==> toks[k] != t,
    decreases toks.len() - from,
{
    if from < toks.len() && toks[from] != t {
        lemma_find_tok(toks, from + 1, t);
    }
}

/// The quote that closes a literal: `'` for characters, `"` for strings.
pub open spec fn quote(single: bool) -> TokenView {
    if single {
        TokenView::Quotes
    } else {
        TokenView::DoubleQuotes
    }
}

/// Whether `tok` is the closing quote.
fn is_quote(tok: &Tokens, single: bool) -> (r: bool)
    ensures
        r == (tok@ == quote(single)),
{
    match tok {
        Tokens::Quotes => single,
        Tokens::DoubleQuotes => !single,
        _ => false,
    }
}

/// Writes back the tokens after `idx` up to the closing quote, after `init`.
/// Returns the text and the index of the closing quote, or the length when
/// there is none.
pub(crate) fn collect_quoted(tokens: &Vec<Tokens>, idx: usize, single: bool, init: String) -> (r: (
    String,
    usize,
))
    requires
        idx + 1 < tokens@.len(),
        no_number(
            views(tokens@),
            idx + 1,
            find_tok(views(tokens@), idx + 1, quote(single)),
        ),
    ensures
        r.1 == find_tok(views(tokens@), idx + 1, quote(single)),
        r.0@ == init@ + concat_deparse(views(tokens@), idx + 1, r.1 as int),
{
    let ghost t = views(tokens@);
    let ghost q = quote(single);
    let n = tokens.len();
    let mut i = idx + 1;
    let mut res = init;
    proof {
        lemma_find_tok(t, idx + 1, q);
    }
    assert(res@ =~= init@ + concat_deparse(t, idx + 1, i as int));
    while !is_quote(&tokens[i], single)
        invariant
            n == tokens@.len() == t.len(),
            t == views(tokens@),
            q == quote(single),
            idx + 1 <= i < n,
            find_tok(t, idx + 1, q) == find_tok(t, i as int, q),
            no_number(t, idx + 1, find_tok(t, idx + 1, q)),
            res@ == init@ + concat_deparse(t, idx + 1, i as int),
        decreases n - i,
    {
        proof {
            lemma_find_tok(t, i as int + 1, q);
            assert(t[i as int] == tokens@[i as int]@);
        }
        let d = deparse_token(&tokens[i]);
        res.append(d.as_str());
        assert(res@ =~= init@ + concat_deparse(t, idx + 1, i + 1));
        i = i + 1;
        if i == n {
            return (res, n);
        }
    }
    (res, i)
}

/// The step on a double quote: a string literal.
fn process_string(tokens: &mut Vec<Tokens>, idx: usize, lines: &Vec<(usize, usize)>) -> (adv: usize)
    requires
        idx < old(tokens)@.len(),
        views(old(tokens)@)[idx as int] == TokenView::DoubleQuotes,
        step(views(old(tokens)@), lines@, idx as int) is Some,
    ensures
        views(final(tokens)@) == step(views(old(tokens)@), lines@, idx as int)->0.toks,
        adv == 1 == step(views(old(tokens)@), lines@, idx as int)->0.adv,
        step(views(old(tokens)@), lines@, idx as int)->0.err is None,
        final(tokens)@.len() == old(tokens)@.len(),
{
    let ghost t0 = views(tokens@);
    let n = tokens.len();
    let empty = String::new();
    assert(step(t0, lines@, idx as int) == string_step(t0, idx as int));
    let (res, j) = collect_quoted(tokens, idx, false, empty);
    proof {
        lemma_find_tok(t0, idx + 1, quote(false));
    }
    assert(res@ =~= concat_deparse(t0, idx + 1, j as int));
    let s = Tokens::String(res);
    if j == n {
        remove_range(tokens, idx + 1, n);
        proof {
            lemma_views_update(tokens@, idx as int, s);
        }
        tokens.set(idx, s);
    } else {
        remove_range(tokens, idx + 1, j + 1);
        proof {
            lemma_views_update(tokens@, idx as int, s);
        }
        tokens.set(idx, s);
    }
    1
}

/// The step on a single quote: a character literal.
fn process_char(
    tokens: &mut Vec<Tokens>,
    idx: usize,
    lines: &Vec<(usize, usize)>,
    errors: &mut Vec<Errors>,
) -> (adv: usize)
    requires
        idx < old(tokens)@.len(),
        views(old(tokens)@)[idx as int] == TokenView::Quotes,
        step(views(old(tokens)@), lines@, idx as int) is Some,
    ensures
        stepped(
            views(old(tokens)@),
            views(final(tokens)@),
            err_views(old(errors)@),
            err_views(final(errors)@),
            lines@,
            idx as int,
            adv as int,
        ),
        final(tokens)@.len() == old(tokens)@.len(),
{
    let ghost t0 = views(tokens@);
    let ghost e0 = err_views(errors@);
    let n = tokens.len();
    proof {
        reveal_strlit("\"");
    }
    let init = lit("\"");
    assert(init@ =~= seq!['"']);
    assert(step(t0, lines@, idx as int) == char_step(t0, lines@, idx as int));
    let (res, j) = collect_quoted(tokens, idx, true, init);
    proof {
        lemma_find_tok(t0, idx + 1, quote(true));
    }
    if j == n {
        let s = Tokens::String(res);
        remove_range(tokens, idx + 1, n);
        proof {
            lemma_views_update(tokens@, idx as int, s);
        }
        tokens.set(idx, s);
        assert(err_views(errors@) =~= e0 + err_seq(None));
        return 1;
    }
    remove_range(tokens, idx + 1, j + 1);
    let mut res = res;
    res.append("\"");
    let ghost quoted = res@;
    assert(quoted =~= seq!['"'] + concat_deparse(t0, idx + 1, j as int) + seq!['"']);
    match unescape(res.as_str()) {
        Ok(temp) => {
            let ts = temp.as_str();
            if ts.unicode_len() == 1 && (ts.get_char(0) as u32) < 128 {
                assert(is_ascii_char(ts@[0]));
                let c = Tokens::Char(ts.get_char(0));
                proof {
                    lemma_views_update(tokens@, idx as int, c);
                }
                tokens.set(idx, c);
                assert(err_views(errors@) =~= e0 + err_seq(None));
            } else {
                let e = Errors::CharacterTooLong(Line::from_pos(lines[idx]), temp);
                errors.push(e);
                assert(err_views(errors@) =~= e0 + err_seq(Some(e@)));
            }
        },
        Err(m) => {
            let e = Errors::InvalidChar(Line::from_pos(lines[idx]), m);
            errors.push(e);
            assert(err_views(errors@) =~= e0 + err_seq(Some(e@)));
            let s = Tokens::String(res);
            proof {
                lemma_views_update(tokens@, idx as int, s);
            }
            tokens.set(idx, s);
        },
    }
    1
}


/// Where the block comment closes, from `i` on, when it closes at `e`.
proof fn lemma_block_end(toks: Seq<TokenView>, i: int, e: int)
    requires
        0 <= i,
        block_end(toks, i) == Some(e),
    ensures
        i <= e,
        e + 1 < toks.len(),
        toks[e] == TokenView::Operator(Operators::Star),
        toks[e + 1] == TokenView::Operator(Operators::Slash),
    decreases toks.len() - i,
{
    if !(toks[i] == TokenView::Operator(Operators::Star) && i + 1 < toks.len() && toks[i + 1]
        == TokenView::Operator(Operators::Slash)) {
        lemma_block_end(toks, i + 1, e);
    }
}

/// Whether `tok` is the operator `op`.
fn is_op(tok: &Tokens, op: Operators) -> (r: bool)
    ensures
        r == (tok@ == TokenView::Operator(op)),
{
    match tok {
        Tokens::Operator(o) => *o == op,
        _ => false,
    }
}

/// Whether `tok` is a newline.
fn is_newline_token(tok: &Tokens) -> (r: bool)
    ensures
        r == (tok@ == newline()),
{
    match tok {
        Tokens::Whitespace(s) => is_newline(s),
        _ => false,
    }
}

/// Deletes a line comment that starts at `idx`, up to the newline.
fn line_comment(tokens: &mut Vec<Tokens>, idx: usize) -> (adv: usize)
    requires
        idx + 1 < old(tokens)@.len(),
        find_tok(views(old(tokens)@), idx + 1, newline()) < old(tokens)@.len(),
    ensures
        views(final(tokens)@) == delete_range(
            views(old(tokens)@),
            idx as int,
            find_tok(views(old(tokens)@), idx + 1, newline()),
        ),
        adv == find_tok(views(old(tokens)@), idx + 1, newline()) - idx,
        final(tokens)@.len() == old(tokens)@.len(),
{
    let ghost t0 = views(tokens@);
    let ghost k = find_tok(t0, idx + 1, newline());
    let n = tokens.len();
    let mut i = idx + 1;
    proof {
        lemma_find_tok(t0, idx + 1, newline());
    }
    assert(views(tokens@) =~= delete_range(t0, idx + 1, i as int));
    while !is_newline_token(&tokens[i])
        invariant
            n == tokens@.len() == t0.len(),
            idx + 1 <= i <= k < n,
            k == find_tok(t0, idx + 1, newline()),
            forall|m: int| idx + 1 <= m < k ==> t0[m] != newline(),
            t0[k] == newline(),
            views(tokens@) == delete_range(t0, idx + 1, i as int),
        decreases k - i,
    {
        assert(tokens@[i as int]@ == views(tokens@)[i as int]);
        remove(tokens, i);
        i = i + 1;
        assert(views(tokens@) =~= delete_range(t0, idx + 1, i as int));
    }
    assert(tokens@[i as int]@ == views(tokens@)[i as int]);
    remove(tokens, idx);
    assert(views(tokens@) =~= delete_range(t0, idx as int, k));
    i - idx
}

/// Deletes a block comment that starts at `idx`, up to and with its closing `*/`.
fn block_comment(tokens: &mut Vec<Tokens>, idx: usize) -> (adv: usize)
    requires
        idx < old(tokens)@.len(),
        block_end(views(old(tokens)@), idx as int) is Some,
    ensures
        views(final(tokens)@) == delete_range(
            views(old(tokens)@),
            idx as int,
            block_end(views(old(tokens)@), idx as int)->0 + 2,
        ),
        adv == block_end(views(old(tokens)@), idx as int)->0 - idx + 2,
        final(tokens)@.len() == old(tokens)@.len(),
{
    let ghost t0 = views(tokens@);
    let ghost e = block_end(t0, idx as int)->0;
    let n = tokens.len();
    let mut i = idx;
    proof {
        lemma_block_end(t0, idx as int, e);
    }
    assert(views(tokens@) =~= delete_range(t0, idx as int, i as int));
    while !(is_op(&tokens[i], Operators::Star) && is_op(&tokens[i + 1], Operators::Slash))
        invariant
            n == tokens@.len() == t0.len(),
            idx <= i <= e,
            e + 1 < n,
            block_end(t0, i as int) == Some(e),
            views(tokens@) == delete_range(t0, idx as int, i as int),
        decreases e - i,
    {
        assert(tokens@[i as int]@ == views(tokens@)[i as int]);
        assert(tokens@[i + 1]@ == views(tokens@)[i + 1]);
        proof {
            lemma_block_end(t0, i as int, e);
        }
        remove(tokens, i);
        i = i + 1;
        assert(views(tokens@) =~= delete_range(t0, idx as int, i as int));
    }
    proof {
        assert(tokens@[i as int]@ == views(tokens@)[i as int]);
        assert(tokens@[i + 1]@ == views(tokens@)[i + 1]);
    }
    remove(tokens, i);
    remove(tokens, i + 1);
    assert(views(tokens@) =~= delete_range(t0, idx as int, e + 2));
    i - idx + 2
}

/// Replaces the operator at `idx` by `joined` and deletes the token after it.
fn join(tokens: &mut Vec<Tokens>, idx: usize, joined: Operators) -> (adv: usize)
    requires
        idx + 1 < old(tokens)@.len(),
    ensures
        views(final(tokens)@) == join_op(views(old(tokens)@), idx as int, joined)->0.toks,
        adv == 1,
        final(tokens)@.len() == old(tokens)@.len(),
{
    let n = tokens.len();
    let t = Tokens::Operator(joined);
    proof {
        lemma_views_update(tokens@, idx as int, t);
    }
    tokens.set(idx, t);
    remove(tokens, idx + 1);
    1
}

/// The step on an operator: joins two-character operators and deletes comments.
fn process_operator(tokens: &mut Vec<Tokens>, idx: usize, lines: &Vec<(usize, usize)>, op: Operators) -> (adv: usize)
    requires
        idx < old(tokens)@.len(),
        views(old(tokens)@)[idx as int] == TokenView::Operator(op),
        step(views(old(tokens)@), lines@, idx as int) is Some,
    ensures
        views(final(tokens)@) == step(views(old(tokens)@), lines@, idx as int)->0.toks,
        adv == step(views(old(tokens)@), lines@, idx as int)->0.adv,
        step(views(old(tokens)@), lines@, idx as int)->0.err is None,
        final(tokens)@.len() == old(tokens)@.len(),
{
    let ghost t0 = views(tokens@);
    let n = tokens.len();
    assert(step(t0, lines@, idx as int) == op_step(t0, idx as int, op));
    match op {
        Operators::Plus | Operators::Minus | Operators::Star | Operators::Not | Operators::Equal => {
            assert(idx + 1 < n);
            assert(tokens@[idx + 1]@ == t0[idx + 1]);
            if is_op(&tokens[idx + 1], Operators::Equal) {
                let joined = match op {
                    Operators::Plus => Operators::AddEq,
                    Operators::Minus => Operators::SubEq,
                    Operators::Star => Operators::MulEq,
                    Operators::Not => Operators::NotEqual,
                    _ => Operators::DoubleEq,
                };
                join(tokens, idx, joined)
            } else {
                1
            }
        },
        Operators::Pipe | Operators::Ampersant => {
            assert(idx + 1 < n);
            assert(tokens@[idx + 1]@ == t0[idx + 1]);
            if is_op(&tokens[idx + 1], op) {
                let joined = match op {
                    Operators::Pipe => Operators::Or,
                    _ => Operators::And,
                };
                join(tokens, idx, joined)
            } else {
                1
            }
        },
        Operators::AngleBracket(b) => {
            assert(idx + 1 < n);
            assert(tokens@[idx + 1]@ == t0[idx + 1]);
            if is_op(&tokens[idx + 1], Operators::Equal) {
                let joined = match b {
                    true => Operators::LessEq,
                    false => Operators::MoreEq,
                };
                join(tokens, idx, joined)
            } else {
                1
            }
        },
        Operators::Slash => {
            assert(idx + 1 < n);
            assert(tokens@[idx + 1]@ == t0[idx + 1]);
            if is_op(&tokens[idx + 1], Operators::Equal) {
                join(tokens, idx, Operators::DivEq)
            } else if is_op(&tokens[idx + 1], Operators::Slash) {
                line_comment(tokens, idx)
            } else if is_op(&tokens[idx + 1], Operators::Star) {
                block_comment(tokens, idx)
            } else {
                1
            }
        },
        _ => 1,
    }
}

/// One step of the pass at token `idx`; returns how many tokens it moves on by.
fn process_token(
    tokens: &mut Vec<Tokens>,
    idx: usize,
    lines: &Vec<(usize, usize)>,
    errors: &mut Vec<Errors>,
) -> (adv: usize)
    requires
        idx < old(tokens)@.len(),
        step(views(old(tokens)@), lines@, idx as int) is Some,
    ensures
        stepped(
            views(old(tokens)@),
            views(final(tokens)@),
            err_views(old(errors)@),
            err_views(final(errors)@),
            lines@,
            idx as int,
            adv as int,
        ),
        final(tokens)@.len() == old(tokens)@.len(),
{
    let ghost t0 = views(tokens@);
    let ghost e0 = err_views(errors@);
    let n = tokens.len();
    let cur = tokens[idx].copy();
    assert(cur@ == t0[idx as int]);
    match &cur {
        Tokens::Text(txt) => process_text(tokens, idx, lines, errors, txt),
        Tokens::Whitespace(_) | Tokens::Space => {
            remove(tokens, idx);
            assert(err_views(errors@) =~= e0 + err_seq(None));
            1
        },
        Tokens::DoubleQuotes => {
            let adv = process_string(tokens, idx, lines);
            assert(err_views(errors@) =~= e0 + err_seq(None));
            adv
        },
        Tokens::Quotes => process_char(tokens, idx, lines, errors),
        Tokens::Colon => {
            assert(idx + 1 < n);
            assert(tokens@[idx + 1]@ == t0[idx + 1]);
            if not_end(idx, tokens) && matches!(tokens[idx + 1], Tokens::Colon) {
                let t = Tokens::DoubleColon;
                proof {
                    lemma_views_update(tokens@, idx as int, t);
                }
                tokens.set(idx, t);
                remove(tokens, idx + 1);
            }
            assert(err_views(errors@) =~= e0 + err_seq(None));
            1
        },
        Tokens::Semicolon => {
            if n != idx + 1 {
                assert(tokens@[idx + 1]@ == t0[idx + 1]);
                if matches!(tokens[idx + 1], Tokens::Semicolon) {
                    remove(tokens, idx + 1);
                }
            }
            assert(err_views(errors@) =~= e0 + err_seq(None));
            1
        },
        Tokens::Operator(op) => {
            let adv = process_operator(tokens, idx, lines, *op);
            assert(err_views(errors@) =~= e0 + err_seq(None));
            adv
        },
        _ => {
            assert(err_views(errors@) =~= e0 + err_seq(None));
            1
        },
    }
}


/// The errors of the pass come after those given to it.
proof fn lemma_run_errs(
    toks: Seq<TokenView>,
    lines: Seq<(usize, usize)>,
    idx: int,
    errs: Seq<ErrorsView>,
)
    ensures
        run(toks, lines, idx, errs) == match run(toks, lines, idx, seq![]) {
            None => None,
            Some((t, e)) => Some((t, errs + e)),
        },
    decreases (if idx < toks.len() {
        toks.len() - idx
    } else {
        0
    }),
{
    if 0 <= idx < toks.len() {
        match step(toks, lines, idx) {
            None => {},
            Some(s) => {
                if s.adv >= 1 && s.toks.len() == toks.len() {
                    lemma_run_errs(s.toks, lines, idx + s.adv, errs + err_seq(s.err));
                    lemma_run_errs(s.toks, lines, idx + s.adv, seq![] + err_seq(s.err));
                    lemma_run_errs(s.toks, lines, idx + s.adv, seq![]);
                    assert(seq![] + err_seq(s.err) =~= err_seq(s.err));
                    match run(s.toks, lines, idx + s.adv, seq![]) {
                        None => {},
                        Some((t, e)) => {
                            assert(errs + err_seq(s.err) + e =~= errs + (err_seq(s.err) + e));
                        },
                    }
                }
            },
        }
    } else {
        assert(errs + seq![] =~= errs);
    }
}

/// A step moves on by at least one token and stays within the tokens, whose
/// number it keeps.
proof fn lemma_step_bounds(toks: Seq<TokenView>, lines: Seq<(usize, usize)>, idx: int)
    requires
        0 <= idx < toks.len(),
        step(toks, lines, idx) is Some,
    ensures
        1 <= step(toks, lines, idx)->0.adv <= toks.len() - idx,
        step(toks, lines, idx)->0.toks.len() == toks.len(),
{
    let x = TokenView::Deleted;
    match toks[idx] {
        TokenView::Operator(op) => {
            assert(step(toks, lines, idx) == op_step(toks, idx, op));
            if idx + 1 < toks.len() {
                assert(forall|j: Operators| #[trigger] join_op(toks, idx, j)->0.toks.len() == toks.len());
                if op == Operators::Slash {
                    lemma_find_tok(toks, idx + 1, newline());
                    if let Some(e) = block_end(toks, idx) {
                        lemma_block_end(toks, idx, e);
                    }
                }
            }
            assert(step(toks, lines, idx)->0.toks.len() == toks.len());
        },
        TokenView::DoubleQuotes => {
            lemma_find_tok(toks, idx + 1, quote(false));
            assert(step(toks, lines, idx)->0.toks.len() == toks.len());
        },
        TokenView::Quotes => {
            lemma_find_tok(toks, idx + 1, quote(true));
            let j = find_tok(toks, idx + 1, TokenView::Quotes);
            let cleared = delete_range(toks, idx + 1, j + 1);
            assert(cleared.len() == toks.len());
            assert(forall|v: TokenView| #[trigger] cleared.update(idx, v).len() == toks.len());
            assert(step(toks, lines, idx) == char_step(toks, lines, idx));
            if j < toks.len() {
                let body = seq!['"'] + concat_deparse(toks, idx + 1, j);
                let quoted = body + seq!['"'];
                let r = char_step(toks, lines, idx)->0;
                match snail_unescape(quoted) {
                    Ok(v) => {
                        if v.len() == 1 && is_ascii_char(v[0]) {
                            assert(r.toks == cleared.update(idx, TokenView::Char(first_char(v))));
                        } else {
                            assert(r.toks == cleared);
                        }
                    },
                    Err(m) => {
                        assert(r.toks == cleared.update(idx, TokenView::String(quoted)));
                    },
                }
            }
            assert(step(toks, lines, idx)->0.toks.len() == toks.len());
        },
        TokenView::Text(txt) => {
            assert(step(toks, lines, idx) == text_step(toks, lines, idx, txt));
            let r = text_step(toks, lines, idx, txt)->0;
            if is_digit(txt[0]) {
                if toks[idx + 1] is Dot {
                    match parse_usize(txt) {
                        None => {
                            assert(r.toks == toks);
                        },
                        Some(w) => {
                            if let TokenView::Text(t2) = toks[idx + 2] {
                                if is_float_frac(t2) {
                                    let num = TokenView::Number(
                                        NumberView { whole: w, fraction: Some(t2) },
                                        'f',
                                    );
                                    assert(r.toks == toks.update(idx, num).update(idx + 1, x).update(
                                        idx + 2,
                                        x,
                                    ));
                                } else {
                                    assert(r.toks == toks);
                                }
                            } else {
                                assert(r.toks == toks);
                            }
                        },
                    }
                } else if is_digit(txt.last()) {
                    match parse_usize(txt) {
                        None => {
                            assert(r.toks == toks);
                        },
                        Some(w) => {
                            assert(r.toks == toks.update(
                                idx,
                                TokenView::Number(NumberView { whole: w, fraction: None }, 'n'),
                            ));
                        },
                    }
                } else if is_ascii_char(txt.last()) {
                    match parse_usize(txt.drop_last()) {
                        None => {
                            assert(r.toks == toks);
                        },
                        Some(w) => {
                            assert(r.toks == toks.update(
                                idx,
                                TokenView::Number(NumberView { whole: w, fraction: None }, last_char(txt)),
                            ));
                        },
                    }
                }
            }
            assert(step(toks, lines, idx)->0.toks.len() == toks.len());
        },
        TokenView::Colon => {
            if idx + 1 < toks.len() {
                assert(toks.update(idx, TokenView::DoubleColon).update(idx + 1, x).len() == toks.len());
            }
            assert(step(toks, lines, idx)->0.toks.len() == toks.len());
        },
        _ => {},
    }
}

/// Keeps the tokens that are not deleted, each with its position.
fn clear(tokens: &Vec<Tokens>, lines: &Vec<(usize, usize)>) -> (r: (Vec<Tokens>, Vec<(usize, usize)>))
    requires
        kept_have_lines(views(tokens@), lines@),
    ensures
        views(r.0@) == kept_tokens(views(tokens@)),
        r.1@ == kept_lines(views(tokens@), lines@),
{
    let ghost t = views(tokens@);
    let mut result: (Vec<Tokens>, Vec<(usize, usize)>) = (Vec::new(), Vec::new());
    let mut i: usize = 0;
    assert(t.take(0) =~= Seq::<TokenView>::empty());
    assert(views(result.0@) =~= Seq::<TokenView>::empty());
    while i < tokens.len()
        invariant
            t == views(tokens@),
            i <= tokens@.len(),
            kept_have_lines(t, lines@),
            views(result.0@) == kept_tokens(t.take(i as int)),
            result.1@ == kept_lines(t.take(i as int), lines@),
        decreases tokens@.len() - i,
    {
        let ghost pre = t.take(i as int);
        assert(t.take(i + 1).drop_last() =~= pre);
        assert(t.take(i + 1).last() == t[i as int]);
        assert(tokens@[i as int]@ == t[i as int]);
        if !matches!(tokens[i], Tokens::Deleted) {
            let tok = tokens[i].copy();
            let ghost before = result.0@;
            result.0.push(tok);
            result.1.push(lines[i]);
            assert(views(result.0@) =~= views(before).push(tok@));
        }
        i = i + 1;
    }
    assert(t.take(i as int) =~= t);
    result
}

/// The second pass over the tokens of a file and their positions (one more
/// position than tokens): reads literals, joins operators, drops whitespace
/// and comments.  The errors it finds are added to `errors`.
pub fn refactor(tokens: Vec<Tokens>, lines: Vec<(usize, usize)>, errors: &mut Vec<Errors>) -> (r:
    Result<(Vec<Tokens>, Vec<(usize, usize)>), LexingErr>)
    requires
        refactor_spec(views(tokens@), lines@) is Some,
    ensures
        r matches Ok(res) && {
            let s = refactor_spec(views(tokens@), lines@)->0;
            &&& views(res.0@) == s.0
            &&& res.1@ == s.1
            &&& err_views(final(errors)@) == err_views(old(errors)@) + s.2
        },
{
    let ghost t_in = views(tokens@).push(TokenView::EndOfFile);
    let ghost e0 = err_views(errors@);
    let mut tokens = tokens;
    let ghost old_toks = tokens@;
    tokens.push(Tokens::EndOfFile);
    assert(views(tokens@) =~= t_in);
    let mut i: usize = 0;
    proof {
        lemma_run_errs(t_in, lines@, 0, e0);
    }
    while i < tokens.len()
        invariant
            tokens@.len() == t_in.len(),
            run(t_in, lines@, 0, seq![]) is Some,
            run(views(tokens@), lines@, i as int, err_views(errors@)) == run(t_in, lines@, 0, e0),
        decreases tokens@.len() - i,
    {
        let ghost tv = views(tokens@);
        let ghost ev = err_views(errors@);
        let ghost s = step(tv, lines@, i as int)->0;
        proof {
            lemma_run_errs(t_in, lines@, 0, e0);
            assert(step(tv, lines@, i as int) is Some);
            lemma_step_bounds(tv, lines@, i as int);
        }
        let adv = process_token(&mut tokens, i, &lines, errors);
        assert(adv >= 1 && s.toks.len() == tv.len());
        i = i + adv;
    }
    proof {
        lemma_run_errs(t_in, lines@, 0, e0);
    }
    let res = clear(&tokens, &lines);
    Ok(res)
}


/// Positions as pairs of `usize`.
pub open spec fn usize_pos(p: Seq<(int, int)>) -> Seq<(usize, usize)> {
    p.map_values(|x: (int, int)| (x.0 as usize, x.1 as usize))
}

/// The positions that the lexer records for `file`: where each token starts,
/// then the end.
pub open spec fn raw_positions(file: Seq<u8>) -> Seq<(usize, usize)> {
    usize_pos(seq![(0int, 0int)] + positions(file, (0, 0)))
}

/// Splits `file` into tokens with their positions.  With `format`, the tokens
/// also go through the second pass, which reports errors; without it, no
/// errors are reported.
pub fn tokenize(file: &[u8], format: bool) -> (r: (Vec<Tokens>, Vec<(usize, usize)>, Vec<Errors>))
    requires
        lexable(file@),
        format ==> refactor_spec(lex(file@), raw_positions(file@)) is Some,
    ensures
        !format ==> views(r.0@) == lex(file@) && r.1@ == raw_positions(file@) && r.2@.len() == 0
            && r.1@.len() == r.0@.len() + 1,
        format ==> {
            let s = refactor_spec(lex(file@), raw_positions(file@))->0;
            &&& views(r.0@) == s.0
            &&& r.1@ == s.1
            &&& err_views(r.2@) == s.2
        },
{
    let (tokens, text_pos) = tokenize_raw(file);
    let mut errors: Vec<Errors> = Vec::new();
    assert(text_pos@ =~= usize_pos(pos_ints(text_pos@)));
    if !format {
        return (tokens, text_pos, errors);
    }
    assert(err_views(errors@) =~= Seq::<ErrorsView>::empty());
    match refactor(tokens, text_pos, &mut errors) {
        Ok(refactored) => {
            let ghost spec_errs = refactor_spec(lex(file@), raw_positions(file@))->0;
            assert(err_views(errors@) =~= Seq::<ErrorsView>::empty() + spec_errs.2);
            (refactored.0, refactored.1, errors)
        },
        Err(_) => {
            assert(false);
            (Vec::new(), Vec::new(), errors)
        },
    }
}

} // verus!
