//! The formatting pass over the tokens of a grammar file: strings are read,
//! spaces dropped, tabs kept as indentation, numbers read, and two-character
//! operators joined.
//!
//! The pass walks the tokens once.  Each step looks at one token, may take
//! tokens out together with their positions, and may report one error; it
//! stays on the same place when it took the token there out.
use vstd::prelude::*;
use crate::lexer::{is_whitespace, is_ws_str, text_eq, views, Line, NumberLit, NumberView, Operators, TokenView, Tokens};
use crate::preprocessor::{collect_quoted, concat_deparse, err_seq, err_views, find_tok, float_frac_ok, is_ascii_char, is_digit, is_float_frac, lemma_find_tok, lemma_views_update, line_at, no_number, parse_digits, parse_usize, Errors, ErrorsView, LexingErr};

verus! {

/// The outcome of one step of the pass: the tokens and positions after it,
/// how far the walk moves on, and the error it reports.
pub struct FmtStep {
    pub toks: Seq<TokenView>,
    pub lines: Seq<(usize, usize)>,
    pub adv: int,
    pub err: Option<ErrorsView>,
}

/// A step that changes nothing.
pub open spec fn fmt_keep(toks: Seq<TokenView>, lines: Seq<(usize, usize)>) -> Option<FmtStep> {
    Some(FmtStep { toks, lines, adv: 1, err: None })
}

/// A step that reports `e` and changes nothing.
pub open spec fn fmt_report(toks: Seq<TokenView>, lines: Seq<(usize, usize)>, e: ErrorsView) -> Option<
    FmtStep,
> {
    Some(FmtStep { toks, lines, adv: 1, err: Some(e) })
}

/// A step that takes token `idx` out and stays.
pub open spec fn fmt_drop(toks: Seq<TokenView>, lines: Seq<(usize, usize)>, idx: int) -> Option<
    FmtStep,
> {
    Some(FmtStep { toks: toks.remove(idx), lines: lines.remove(idx), adv: 0, err: None })
}

/// A step that replaces token `idx` by `t` and takes the next one out.
pub open spec fn fmt_join(
    toks: Seq<TokenView>,
    lines: Seq<(usize, usize)>,
    idx: int,
    t: TokenView,
) -> Option<FmtStep> {
    Some(
        FmtStep {
            toks: toks.update(idx, t).remove(idx + 1),
            lines: lines.remove(idx + 1),
            adv: 1,
            err: None,
        },
    )
}

/// Joins the operator at `idx` with a following `second` into `joined`.
pub open spec fn fmt_pair(
    toks: Seq<TokenView>,
    lines: Seq<(usize, usize)>,
    idx: int,
    second: Operators,
    joined: Operators,
) -> Option<FmtStep> {
    if idx + 1 >= toks.len() {
        None
    } else if toks[idx + 1] == TokenView::Operator(second) {
        fmt_join(toks, lines, idx, TokenView::Operator(joined))
    } else {
        fmt_keep(toks, lines)
    }
}

/// The step on an operator.
pub open spec fn fmt_op(toks: Seq<TokenView>, lines: Seq<(usize, usize)>, idx: int, op: Operators) -> Option<
    FmtStep,
> {
    match op {
        Operators::Plus => fmt_pair(toks, lines, idx, Operators::Equal, Operators::AddEq),
        Operators::Minus => fmt_pair(toks, lines, idx, Operators::Equal, Operators::SubEq),
        Operators::Star => fmt_pair(toks, lines, idx, Operators::Equal, Operators::MulEq),
        Operators::Slash => fmt_pair(toks, lines, idx, Operators::Equal, Operators::DivEq),
        Operators::Not => fmt_pair(toks, lines, idx, Operators::Equal, Operators::NotEqual),
        Operators::Equal => fmt_pair(toks, lines, idx, Operators::Equal, Operators::DoubleEq),
        Operators::Pipe => fmt_pair(toks, lines, idx, Operators::Pipe, Operators::Or),
        Operators::Ampersant => fmt_pair(toks, lines, idx, Operators::Ampersant, Operators::And),
        Operators::AngleBracket(less) => fmt_pair(
            toks,
            lines,
            idx,
            Operators::Equal,
            if less {
                Operators::LessEq
            } else {
                Operators::MoreEq
            },
        ),
        _ => fmt_keep(toks, lines),
    }
}

/// The step on a piece of text: a number (whole, with a fraction after a dot,
/// or with a one-character kind after it), whitespace to drop, or a word.
pub open spec fn fmt_text(toks: Seq<TokenView>, lines: Seq<(usize, usize)>, idx: int, txt: Seq<char>) -> Option<
    FmtStep,
> {
    let n = toks.len() as int;
    if txt.len() > 0 && is_digit(txt[0]) {
        if idx + 1 >= n {
            None
        } else if toks[idx + 1] is Dot {
            match parse_usize(txt) {
                None => fmt_report(toks, lines, ErrorsView::InvalidNumber(line_at(lines, idx), txt)),
                Some(w) => if idx + 2 >= n {
                    None
                } else {
                    match toks[idx + 2] {
                        TokenView::Text(t2) => if is_float_frac(t2) {
                            Some(
                                FmtStep {
                                    toks: toks.update(
                                        idx,
                                        TokenView::Number(
                                            NumberView { whole: w, fraction: Some(t2) },
                                            'f',
                                        ),
                                    ).remove(idx + 1).remove(idx + 1),
                                    lines: lines.remove(idx + 1).remove(idx + 1),
                                    adv: 1,
                                    err: None,
                                },
                            )
                        } else {
                            fmt_report(
                                toks,
                                lines,
                                ErrorsView::InvalidNumber(line_at(lines, idx), txt + seq!['.'] + t2),
                            )
                        },
                        _ => fmt_keep(toks, lines),
                    }
                },
            }
        } else if is_digit(txt.last()) {
            match parse_usize(txt) {
                Some(w) => Some(
                    FmtStep {
                        toks: toks.update(
                            idx,
                            TokenView::Number(NumberView { whole: w, fraction: None }, 'i'),
                        ),
                        lines,
                        adv: 1,
                        err: None,
                    },
                ),
                None => fmt_report(toks, lines, ErrorsView::InvalidNumber(line_at(lines, idx), txt)),
            }
        } else if !is_ascii_char(txt.last()) {
            None
        } else {
            match parse_usize(txt.drop_last()) {
                Some(w) => Some(
                    FmtStep {
                        toks: toks.update(
                            idx,
                            TokenView::Number(NumberView { whole: w, fraction: None }, txt.last()),
                        ),
                        lines,
                        adv: 1,
                        err: None,
                    },
                ),
                None => fmt_report(toks, lines, ErrorsView::InvalidNumber(line_at(lines, idx), txt)),
            }
        }
    } else if is_ws_str(txt) {
        fmt_drop(toks, lines, idx)
    } else {
        fmt_keep(toks, lines)
    }
}

/// The step on a double quote: the tokens up to the closing quote (or to the
/// end) become the content of a string, and are taken out.
pub open spec fn fmt_string(toks: Seq<TokenView>, lines: Seq<(usize, usize)>, idx: int) -> Option<
    FmtStep,
> {
    let n = toks.len() as int;
    let j = find_tok(toks, idx + 1, TokenView::DoubleQuotes);
    if idx + 1 >= n || !no_number(toks, idx + 1, j) {
        None
    } else if j == n {
        Some(
            FmtStep {
                toks: toks.subrange(0, idx).push(TokenView::String(concat_deparse(toks, idx + 1, n))),
                lines: lines.subrange(0, idx + 1),
                adv: 1,
                err: None,
            },
        )
    } else {
        Some(
            FmtStep {
                toks: toks.subrange(0, idx).push(TokenView::String(concat_deparse(toks, idx + 1, j)))
                    + toks.subrange(j + 1, n),
                lines: lines.subrange(0, idx + 1) + lines.subrange(j + 1, lines.len() as int),
                adv: 1,
                err: None,
            },
        )
    }
}

/// One step of the pass at `idx`; nothing where the step would look past the
/// last token or write back a number literal.
pub open spec fn fmt_step(toks: Seq<TokenView>, lines: Seq<(usize, usize)>, idx: int) -> Option<
    FmtStep,
> {
    match toks[idx] {
        TokenView::DoubleQuotes => fmt_string(toks, lines, idx),
        TokenView::Space => fmt_drop(toks, lines, idx),
        TokenView::Colon => if idx + 1 >= toks.len() {
            None
        } else if toks[idx + 1] is Colon {
            fmt_join(toks, lines, idx, TokenView::DoubleColon)
        } else {
            fmt_keep(toks, lines)
        },
        TokenView::Text(txt) => fmt_text(toks, lines, idx, txt),
        TokenView::Whitespace(txt) => if txt == "\t"@ {
            Some(FmtStep { toks: toks.update(idx, TokenView::Tab), lines, adv: 1, err: None })
        } else {
            fmt_drop(toks, lines, idx)
        },
        TokenView::Operator(op) => fmt_op(toks, lines, idx, op),
        _ => fmt_keep(toks, lines),
    }
}

/// The pass from `idx` on: the tokens, the positions and the errors reported;
/// nothing where a step fails.
pub open spec fn fmt_run(toks: Seq<TokenView>, lines: Seq<(usize, usize)>, idx: int) -> Option<
    (Seq<TokenView>, Seq<(usize, usize)>, Seq<ErrorsView>),
>
    decreases toks.len() - idx,
{
    if !(0 <= idx) {
        None
    } else if idx >= toks.len() {
        Some((toks, lines, seq![]))
    } else {
        match fmt_step(toks, lines, idx) {
            None => None,
            Some(st) => if !(0 <= idx + st.adv <= st.toks.len() && st.toks.len() - (idx + st.adv) < toks.len()
                - idx) {
                None
            } else {
                match fmt_run(st.toks, st.lines, idx + st.adv) {
                    None => None,
                    Some((t, l, e)) => Some((t, l, err_seq(st.err) + e)),
                }
            },
        }
    }
}

/// Whether the tokens, positions, errors and advance after a step are what
/// `fmt_step` says of the step at `idx`.
pub open spec fn fmt_stepped(
    old_t: Seq<TokenView>,
    old_l: Seq<(usize, usize)>,
    old_e: Seq<ErrorsView>,
    new_t: Seq<TokenView>,
    new_l: Seq<(usize, usize)>,
    new_e: Seq<ErrorsView>,
    idx: int,
    adv: int,
) -> bool {
    let st = fmt_step(old_t, old_l, idx).unwrap();
    &&& new_t == st.toks
    &&& new_l == st.lines
    &&& new_e == old_e + err_seq(st.err)
    &&& adv == st.adv
}

/// Takes token `idx` and its position out.
fn drop_at(tokens: &mut Vec<Tokens>, lines: &mut Vec<(usize, usize)>, idx: usize)
    requires
        idx < old(tokens)@.len(),
        idx < old(lines)@.len(),
    ensures
        views(final(tokens)@) == views(old(tokens)@).remove(idx as int),
        final(lines)@ == old(lines)@.remove(idx as int),
        final(tokens)@.len() == old(tokens)@.len() - 1,
        final(lines)@.len() == old(lines)@.len() - 1,
{
    tokens.remove(idx);
    lines.remove(idx);
    assert(views(tokens@) =~= views(old(tokens)@).remove(idx as int));
}

/// Replaces token `idx` by `t` and takes the next token and its position out.
fn join_at(tokens: &mut Vec<Tokens>, lines: &mut Vec<(usize, usize)>, idx: usize, t: Tokens)
    requires
        idx + 1 < old(tokens)@.len(),
        idx + 1 < old(lines)@.len(),
    ensures
        views(final(tokens)@) == views(old(tokens)@).update(idx as int, t@).remove(idx + 1),
        final(lines)@ == old(lines)@.remove(idx + 1),
        final(tokens)@.len() == old(tokens)@.len() - 1,
        final(lines)@.len() == old(lines)@.len() - 1,
{
    let n = tokens.len();
    proof {
        lemma_views_update(tokens@, idx as int, t);
    }
    tokens.set(idx, t);
    drop_at(tokens, lines, idx + 1);
}

/// Joins the operator at `idx` with a following `second` into `joined`.
fn pair_at(
    tokens: &mut Vec<Tokens>,
    lines: &mut Vec<(usize, usize)>,
    idx: usize,
    second: Operators,
    joined: Operators,
) -> (adv: usize)
    requires
        old(lines)@.len() >= old(tokens)@.len(),
        fmt_pair(views(old(tokens)@), old(lines)@, idx as int, second, joined) is Some,
    ensures
        views(final(tokens)@) == fmt_pair(views(old(tokens)@), old(lines)@, idx as int, second, joined).unwrap().toks,
        final(lines)@ == fmt_pair(views(old(tokens)@), old(lines)@, idx as int, second, joined).unwrap().lines,
        adv == 1,
        final(lines)@.len() >= final(tokens)@.len(),
{
    let n = tokens.len();
    let is_second = match &tokens[idx + 1] {
        Tokens::Operator(o) => *o == second,
        _ => false,
    };
    if is_second {
        join_at(tokens, lines, idx, Tokens::Operator(joined));
    }
    1
}

/// Reports an invalid number at `idx`.
fn report_number(errors: &mut Vec<Errors>, lines: &Vec<(usize, usize)>, idx: usize, txt: String) -> (adv: usize)
    requires
        idx < lines@.len(),
    ensures
        err_views(final(errors)@) == err_views(old(errors)@) + seq![
            ErrorsView::InvalidNumber(line_at(lines@, idx as int), txt@),
        ],
        adv == 1,
{
    let e = Errors::InvalidNumber(Line::from_pos(lines[idx]), txt);
    errors.push(e);
    assert(err_views(errors@) =~= err_views(old(errors)@) + seq![e@]);
    1
}

/// The step on a piece of text.
fn fmt_text_at(
    tokens: &mut Vec<Tokens>,
    idx: usize,
    lines: &mut Vec<(usize, usize)>,
    errors: &mut Vec<Errors>,
    txt: &String,
) -> (adv: usize)
    requires
        idx < old(tokens)@.len(),
        old(lines)@.len() >= old(tokens)@.len(),
        views(old(tokens)@)[idx as int] == TokenView::Text(txt@),
        fmt_step(views(old(tokens)@), old(lines)@, idx as int) is Some,
    ensures
        fmt_stepped(
            views(old(tokens)@),
            old(lines)@,
            err_views(old(errors)@),
            views(final(tokens)@),
            final(lines)@,
            err_views(final(errors)@),
            idx as int,
            adv as int,
        ),
        final(lines)@.len() >= final(tokens)@.len(),
{
    let ghost t0 = views(tokens@);
    let n_tok = tokens.len();
    assert(fmt_step(t0, lines@, idx as int) == fmt_text(t0, lines@, idx as int, txt@));
    let s = txt.as_str();
    let n = s.unicode_len();
    if n > 0 {
        let fu = s.get_char(0) as u32;
        if 48 <= fu && fu <= 57 {
            assert(is_digit(txt@[0]));
            let next_is_dot = match &tokens[idx + 1] {
                Tokens::Dot => true,
                _ => false,
            };
            if next_is_dot {
                let whole = parse_digits(s, n);
                assert(s@.take(n as int) =~= s@);
                match whole {
                    None => {
                        return report_number(errors, lines, idx, txt.clone());
                    },
                    Some(w) => {
                        let third = tokens[idx + 2].copy();
                        match &third {
                            Tokens::Text(txt2) => {
                                if float_frac_ok(txt2.as_str()) {
                                    let num = Tokens::Number(
                                        NumberLit { whole: w, fraction: Some(txt2.clone()) },
                                        'f',
                                    );
                                    proof {
                                        lemma_views_update(tokens@, idx as int, num);
                                    }
                                    tokens.set(idx, num);
                                    drop_at(tokens, lines, idx + 1);
                                    drop_at(tokens, lines, idx + 1);
                                    return 1;
                                } else {
                                    let mut res = txt.clone();
                                    proof {
                                        reveal_strlit(".");
                                    }
                                    res.append(".");
                                    res.append(txt2.as_str());
                                    assert(res@ =~= txt@ + seq!['.'] + txt2@);
                                    return report_number(errors, lines, idx, res);
                                }
                            },
                            _ => {
                                return 1;
                            },
                        }
                    },
                }
            } else {
                let last = s.get_char(n - 1);
                assert(last == s@.last());
                let lu = last as u32;
                if 48 <= lu && lu <= 57 {
                    let whole = parse_digits(s, n);
                    assert(s@.take(n as int) =~= s@);
                    match whole {
                        Some(w) => {
                            let num = Tokens::Number(NumberLit { whole: w, fraction: None }, 'i');
                            proof {
                                lemma_views_update(tokens@, idx as int, num);
                            }
                            tokens.set(idx, num);
                            return 1;
                        },
                        None => {
                            return report_number(errors, lines, idx, txt.clone());
                        },
                    }
                } else {
                    let whole = parse_digits(s, n - 1);
                    assert(s@.take(n - 1) =~= s@.drop_last());
                    match whole {
                        Some(w) => {
                            let num = Tokens::Number(NumberLit { whole: w, fraction: None }, last);
                            proof {
                                lemma_views_update(tokens@, idx as int, num);
                            }
                            tokens.set(idx, num);
                            return 1;
                        },
                        None => {
                            return report_number(errors, lines, idx, txt.clone());
                        },
                    }
                }
            }
        }
    }
    if is_whitespace(s) {
        drop_at(tokens, lines, idx);
        return 0;
    }
    1
}

/// The step on a double quote: a string.
fn fmt_string_at(tokens: &mut Vec<Tokens>, idx: usize, lines: &mut Vec<(usize, usize)>) -> (adv: usize)
    requires
        idx < old(tokens)@.len(),
        old(lines)@.len() >= old(tokens)@.len(),
        views(old(tokens)@)[idx as int] == TokenView::DoubleQuotes,
        fmt_step(views(old(tokens)@), old(lines)@, idx as int) is Some,
    ensures
        views(final(tokens)@) == fmt_step(views(old(tokens)@), old(lines)@, idx as int).unwrap().toks,
        final(lines)@ == fmt_step(views(old(tokens)@), old(lines)@, idx as int).unwrap().lines,
        adv == 1,
        final(lines)@.len() >= final(tokens)@.len(),
{
    let ghost t0 = views(tokens@);
    let ghost l0 = lines@;
    let n = tokens.len();
    assert(fmt_step(t0, l0, idx as int) == fmt_string(t0, l0, idx as int));
    let init = String::new();
    let ghost ginit = init;
    let (res, j) = collect_quoted(tokens, idx, false, init);
    assert(ginit@ + concat_deparse(t0, idx + 1, j as int) =~= concat_deparse(
        t0,
        idx + 1,
        j as int,
    ));
    proof {
        lemma_find_tok(t0, idx + 1, TokenView::DoubleQuotes);
    }
    let str_tok = Tokens::String(res);
    if j == n {
        tokens.truncate(idx + 1);
        lines.truncate(idx + 1);
        proof {
            lemma_views_update(tokens@, idx as int, str_tok);
        }
        tokens.set(idx, str_tok);
        assert(views(tokens@) =~= t0.subrange(0, idx as int).push(str_tok@));
    } else {
        let mut tail = tokens.split_off(j + 1);
        let mut ltail = lines.split_off(j + 1);
        tokens.truncate(idx + 1);
        lines.truncate(idx + 1);
        proof {
            lemma_views_update(tokens@, idx as int, str_tok);
        }
        tokens.set(idx, str_tok);
        let ghost head = views(tokens@);
        let ghost tv = views(tail@);
        tokens.append(&mut tail);
        lines.append(&mut ltail);
        assert(head =~= t0.subrange(0, idx as int).push(str_tok@));
        assert(tv =~= t0.subrange(j + 1, n as int));
        assert(views(tokens@) =~= head + tv);
    }
    1
}

/// One step of the pass at `idx`: returns how far the walk moves on.
fn process_token(
    tokens: &mut Vec<Tokens>,
    idx: usize,
    lines: &mut Vec<(usize, usize)>,
    errors: &mut Vec<Errors>,
) -> (adv: usize)
    requires
        idx < old(tokens)@.len(),
        old(lines)@.len() >= old(tokens)@.len(),
        fmt_step(views(old(tokens)@), old(lines)@, idx as int) is Some,
    ensures
        fmt_stepped(
            views(old(tokens)@),
            old(lines)@,
            err_views(old(errors)@),
            views(final(tokens)@),
            final(lines)@,
            err_views(final(errors)@),
            idx as int,
            adv as int,
        ),
        final(lines)@.len() >= final(tokens)@.len(),
{
    let ghost t0 = views(tokens@);
    let ghost e0 = err_views(errors@);
    let n_tok = tokens.len();
    let tok = tokens[idx].copy();
    assert(tok@ == t0[idx as int]);
    match &tok {
        Tokens::DoubleQuotes => {
            let a = fmt_string_at(tokens, idx, lines);
            assert(e0 + seq![] =~= e0);
            a
        },
        Tokens::Space => {
            drop_at(tokens, lines, idx);
            assert(e0 + seq![] =~= e0);
            0
        },
        Tokens::Colon => {
            let next_colon = match &tokens[idx + 1] {
                Tokens::Colon => true,
                _ => false,
            };
            if next_colon {
                join_at(tokens, lines, idx, Tokens::DoubleColon);
            }
            assert(e0 + seq![] =~= e0);
            1
        },
        Tokens::Text(txt) => fmt_text_at(tokens, idx, lines, errors, txt),
        Tokens::Whitespace(txt) => {
            assert(e0 + seq![] =~= e0);
            if text_eq(txt.as_str(), "\t") {
                proof {
                    lemma_views_update(tokens@, idx as int, Tokens::Tab);
                }
                tokens.set(idx, Tokens::Tab);
                1
            } else {
                drop_at(tokens, lines, idx);
                0
            }
        },
        Tokens::Operator(op) => {
            assert(e0 + seq![] =~= e0);
            match op {
                Operators::Plus => pair_at(tokens, lines, idx, Operators::Equal, Operators::AddEq),
                Operators::Minus => pair_at(tokens, lines, idx, Operators::Equal, Operators::SubEq),
                Operators::Star => pair_at(tokens, lines, idx, Operators::Equal, Operators::MulEq),
                Operators::Slash => pair_at(tokens, lines, idx, Operators::Equal, Operators::DivEq),
                Operators::Not => pair_at(tokens, lines, idx, Operators::Equal, Operators::NotEqual),
                Operators::Equal => pair_at(tokens, lines, idx, Operators::Equal, Operators::DoubleEq),
                Operators::Pipe => pair_at(tokens, lines, idx, Operators::Pipe, Operators::Or),
                Operators::Ampersant => pair_at(
                    tokens,
                    lines,
                    idx,
                    Operators::Ampersant,
                    Operators::And,
                ),
                Operators::AngleBracket(less) => {
                    let joined = if *less {
                        Operators::LessEq
                    } else {
                        Operators::MoreEq
                    };
                    pair_at(tokens, lines, idx, Operators::Equal, joined)
                },
                _ => 1,
            }
        },
        _ => {
            assert(e0 + seq![] =~= e0);
            1
        },
    }
}

/// Formats the tokens of a grammar file: strings read, spaces and other
/// whitespace dropped but tabs, numbers read and operators joined.  The
/// positions follow the tokens, and the errors found are added to `errors`.
pub fn refactor(tokens: Vec<Tokens>, lines: &mut Vec<(usize, usize)>, errors: &mut Vec<Errors>) -> (r: Result<
    Vec<Tokens>,
    LexingErr,
>)
    requires
        old(lines)@.len() >= tokens@.len(),
        fmt_run(views(tokens@), old(lines)@, 0) is Some,
    ensures
        r matches Ok(t) && views(t@) == fmt_run(views(tokens@), old(lines)@, 0).unwrap().0,
        final(lines)@ == fmt_run(views(tokens@), old(lines)@, 0).unwrap().1,
        err_views(final(errors)@) == err_views(old(errors)@) + fmt_run(views(tokens@), old(lines)@, 0).unwrap().2,
{
    let ghost t0 = views(tokens@);
    let ghost l0 = lines@;
    let ghost e0 = err_views(errors@);
    let mut tokens = tokens;
    let mut i: usize = 0;
    while i < tokens.len()
        invariant
            lines@.len() >= tokens@.len(),
            fmt_run(views(tokens@), lines@, i as int) is Some,
            fmt_run(t0, l0, 0) == Some(
                (
                    fmt_run(views(tokens@), lines@, i as int).unwrap().0,
                    fmt_run(views(tokens@), lines@, i as int).unwrap().1,
                    err_views(errors@).subrange(e0.len() as int, err_views(errors@).len() as int)
                        + fmt_run(views(tokens@), lines@, i as int).unwrap().2,
                ),
            ),
            err_views(errors@).subrange(0, e0.len() as int) == e0,
            e0.len() <= err_views(errors@).len(),
        decreases tokens@.len() - i,
    {
        let ghost t = views(tokens@);
        let ghost l = lines@;
        let ghost e = err_views(errors@);
        let adv = process_token(&mut tokens, i, lines, errors);
        proof {
            let st = fmt_step(t, l, i as int).unwrap();
            let e2 = err_views(errors@);
            assert(e2 == e + err_seq(st.err));
            assert(e2.subrange(0, e0.len() as int) =~= e.subrange(0, e0.len() as int));
            assert(e2.subrange(e0.len() as int, e2.len() as int) + fmt_run(st.toks, st.lines, i + adv).unwrap().2
                =~= e.subrange(e0.len() as int, e.len() as int) + (err_seq(st.err) + fmt_run(
                st.toks,
                st.lines,
                i + adv,
            ).unwrap().2));
        }
        i = i + adv;
    }
    proof {
        let e2 = err_views(errors@);
        assert(e2 =~= e0 + e2.subrange(e0.len() as int, e2.len() as int));
        assert(e2.subrange(e0.len() as int, e2.len() as int) + seq![] =~= e2.subrange(
            e0.len() as int,
            e2.len() as int,
        ));
    }
    Ok(tokens)
}

} // verus!
