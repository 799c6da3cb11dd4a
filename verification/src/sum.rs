//! Check sums of the source files of a project: a line per file with its
//! SHA-256 and SHA-512 digests in hexadecimal, and the comparison of the
//! recorded lines with new ones.
use vstd::prelude::*;
use sha2::Digest;
use crate::names::texts;

verus! {

/// The SHA-256 digest of `data`.
pub uninterp spec fn sha256_digest(data: Seq<u8>) -> Seq<u8>;

/// The SHA-512 digest of `data`.
pub uninterp spec fn sha512_digest(data: Seq<u8>) -> Seq<u8>;

/// The SHA-256 digest of `data`, by `Digest::digest` of sha2's `Sha256`
/// (a new hasher, updated with `data`, finalized): its 32 bytes, a function
/// of `data` alone.
#[verifier::external_body]
fn sha256(data: &[u8]) -> (r: Vec<u8>)
    ensures
        r@ == sha256_digest(data@),
        r@.len() == 32,
{
    sha2::Sha256::digest(data).to_vec()
}

/// The SHA-512 digest of `data`, by `Digest::digest` of sha2's `Sha512`
/// (a new hasher, updated with `data`, finalized): its 64 bytes, a function
/// of `data` alone.
#[verifier::external_body]
fn sha512(data: &[u8]) -> (r: Vec<u8>)
    ensures
        r@ == sha512_digest(data@),
        r@.len() == 64,
{
    sha2::Sha512::digest(data).to_vec()
}

/// The lowercase hexadecimal digit of `d`.
pub open spec fn hex_char(d: nat) -> char {
    if d < 10 {
        ((d + 48) as u32) as char
    } else {
        ((d + 87) as u32) as char
    }
}

/// The bytes of `b` in lowercase hexadecimal, two digits each, as `{:x}`
/// prints a digest.
pub open spec fn hex_text(b: Seq<u8>) -> Seq<char>
    decreases b.len(),
{
    if b.len() == 0 {
        seq![]
    } else {
        hex_text(b.drop_last()) + seq![hex_char((b.last() / 16) as nat), hex_char((b.last() % 16) as nat)]
    }
}

/// The text of one hexadecimal digit.
fn hex_digit(d: u8) -> (r: &'static str)
    requires
        d < 16,
    ensures
        r@ == seq![hex_char(d as nat)],
{
    proof {
        reveal_strlit("0");
        reveal_strlit("1");
        reveal_strlit("2");
        reveal_strlit("3");
        reveal_strlit("4");
        reveal_strlit("5");
        reveal_strlit("6");
        reveal_strlit("7");
        reveal_strlit("8");
        reveal_strlit("9");
        reveal_strlit("a");
        reveal_strlit("b");
        reveal_strlit("c");
        reveal_strlit("d");
        reveal_strlit("e");
        reveal_strlit("f");
    }
    let r = if d == 0 {
        "0"
    } else if d == 1 {
        "1"
    } else if d == 2 {
        "2"
    } else if d == 3 {
        "3"
    } else if d == 4 {
        "4"
    } else if d == 5 {
        "5"
    } else if d == 6 {
        "6"
    } else if d == 7 {
        "7"
    } else if d == 8 {
        "8"
    } else if d == 9 {
        "9"
    } else if d == 10 {
        "a"
    } else if d == 11 {
        "b"
    } else if d == 12 {
        "c"
    } else if d == 13 {
        "d"
    } else if d == 14 {
        "e"
    } else {
        "f"
    };
    assert(r@ =~= seq![hex_char(d as nat)]);
    r
}

/// The bytes of `b` in lowercase hexadecimal.
fn hex_string(b: &Vec<u8>) -> (r: String)
    ensures
        r@ == hex_text(b@),
{
    let mut r = String::new();
    let mut i: usize = 0;
    while i < b.len()
        invariant
            i <= b@.len(),
            r@ == hex_text(b@.take(i as int)),
        decreases b@.len() - i,
    {
        let x = b[i];
        r = r.concat(hex_digit(x / 16)).concat(hex_digit(x % 16));
        proof {
            assert(b@.take(i + 1).drop_last() =~= b@.take(i as int));
            assert(b@.take(i + 1).last() == x);
        }
        i = i + 1;
        assert(r@ =~= hex_text(b@.take(i as int)));
    }
    assert(b@.take(b@.len() as int) =~= b@);
    r
}

/// The line of a file with the contents `data` shown as `path`: its SHA-256
/// and SHA-512 digests in hexadecimal and its path, separated by spaces.
pub open spec fn sum_text(data: Seq<u8>, path: Seq<char>) -> Seq<char> {
    hex_text(sha256_digest(data)) + seq![' '] + hex_text(sha512_digest(data)) + seq![' '] + path
}

/// The check sum line of a file with the contents `data` shown as `path`.
pub fn sum_line(data: &[u8], path: &str) -> (r: String)
    ensures
        r@ == sum_text(data@, path@),
{
    proof {
        reveal_strlit(" ");
    }
    let a = hex_string(&sha256(data));
    let b = hex_string(&sha512(data));
    let r = a.concat(" ").concat(b.as_str()).concat(" ").concat(path);
    assert(r@ =~= sum_text(data@, path@));
    r
}

/// The number of characters of `s` before its first line feed, or all of them.
pub open spec fn until_newline(s: Seq<char>) -> nat
    decreases s.len(),
{
    if s.len() == 0 || s[0] == '\n' {
        0
    } else {
        1 + until_newline(s.drop_first())
    }
}

/// The characters before a line feed are at most all of them.
pub proof fn lemma_until_newline_bound(s: Seq<char>)
    ensures
        until_newline(s) <= s.len(),
    decreases s.len(),
{
    if s.len() > 0 && s[0] != '\n' {
        lemma_until_newline_bound(s.drop_first());
    }
}

/// The lines of `s`, as `str::lines` gives them: split at line feeds, a
/// carriage return before a line feed dropped, and no last empty line after
/// a final line feed.
pub open spec fn text_lines(s: Seq<char>) -> Seq<Seq<char>>
    decreases s.len(),
{
    if s.len() == 0 {
        seq![]
    } else {
        let k = until_newline(s);
        proof {
            lemma_until_newline_bound(s);
        }
        if k == s.len() {
            seq![s]
        } else {
            let l = s.take(k as int);
            let l = if l.len() > 0 && l.last() == '\r' {
                l.drop_last()
            } else {
                l
            };
            seq![l] + text_lines(s.skip(k + 1 as int))
        }
    }
}

/// The lines of `s`.
pub fn lines(s: &str) -> (r: Vec<String>)
    ensures
        texts(r@) == text_lines(s@),
{
    let n = s.unicode_len();
    let mut r: Vec<String> = Vec::new();
    let mut start: usize = 0;
    assert(s@.skip(0) =~= s@);
    assert(texts(r@) + text_lines(s@) =~= text_lines(s@));
    while start < n
        invariant
            start <= n == s@.len(),
            texts(r@) + text_lines(s@.skip(start as int)) == text_lines(s@),
        decreases n - start,
    {
        let mut k: usize = start;
        while k < n && s.get_char(k) != '\n'
            invariant
                start <= k <= n == s@.len(),
                until_newline(s@.skip(start as int)) == (k - start) + until_newline(s@.skip(k as int)),
            decreases n - k,
        {
            assert(s@.skip(k as int).drop_first() =~= s@.skip(k + 1));
            k = k + 1;
        }
        let ghost rest = s@.skip(start as int);
        if k == n {
            proof {
                assert(s@.skip(n as int).len() == 0);
                assert(until_newline(rest) == rest.len());
            }
            let line = s.substring_char(start, n);
            let ghost before = texts(r@);
            r.push(line.to_owned());
            proof {
                assert(texts(r@) =~= before.push(line@));
                assert(line@ =~= rest);
                assert(s@.skip(n as int) =~= Seq::<char>::empty());
            }
            start = n;
        } else {
            let end = if k > start && s.get_char(k - 1) == '\r' {
                k - 1
            } else {
                k
            };
            let line = s.substring_char(start, end);
            let ghost before = texts(r@);
            r.push(line.to_owned());
            proof {
                assert(texts(r@) =~= before.push(line@));
                let l = rest.take((k - start) as int);
                assert(l =~= s@.subrange(start as int, k as int));
                if k > start && s@[k - 1] == '\r' {
                    assert(line@ =~= l.drop_last());
                } else {
                    assert(line@ =~= l);
                }
                assert(rest.skip((k - start) + 1) =~= s@.skip(k + 1));
                assert(before.push(line@) + text_lines(s@.skip(k + 1)) =~= before + (seq![line@] + text_lines(s@.skip(k + 1))));
            }
            start = k + 1;
        }
    }
    assert(s@.skip(n as int).len() == 0);
    assert(texts(r@) + seq![] =~= texts(r@));
    r
}

/// Whether the recorded lines are the lines computed now, in order.
pub fn sums_agree(computed: &Vec<String>, recorded: &Vec<String>) -> (r: bool)
    ensures
        r == (texts(computed@) == texts(recorded@)),
{
    if computed.len() != recorded.len() {
        assert(texts(computed@).len() != texts(recorded@).len());
        return false;
    }
    let mut i: usize = 0;
    while i < computed.len()
        invariant
            i <= computed@.len() == recorded@.len(),
            forall|j: int| 0 <= j < i ==> computed@[j]@ == recorded@[j]@,
        decreases computed@.len() - i,
    {
        if computed[i] != recorded[i] {
            assert(texts(computed@)[i as int] != texts(recorded@)[i as int]);
            return false;
        }
        i = i + 1;
    }
    assert(texts(computed@) =~= texts(recorded@));
    true
}


/// The text of the lines `ls`, each followed by a line feed.
pub open spec fn joined_lines(ls: Seq<Seq<char>>) -> Seq<char>
    decreases ls.len(),
{
    if ls.len() == 0 {
        seq![]
    } else {
        joined_lines(ls.drop_last()) + ls.last() + seq!['\n']
    }
}

/// The contents of the file of sums: each line followed by a line feed.
pub fn sums_text(sums: &Vec<String>) -> (r: String)
    ensures
        r@ == joined_lines(texts(sums@)),
{
    proof {
        reveal_strlit("\n");
    }
    let mut r = String::new();
    let mut i: usize = 0;
    while i < sums.len()
        invariant
            i <= sums@.len(),
            r@ == joined_lines(texts(sums@).take(i as int)),
        decreases sums@.len() - i,
    {
        r = r.concat(sums[i].as_str()).concat("\n");
        proof {
            reveal_strlit("\n");
            assert("\n"@ =~= seq!['\n']);
            assert(texts(sums@).take(i + 1).drop_last() =~= texts(sums@).take(i as int));
            assert(texts(sums@).take(i + 1).last() == sums@[i as int]@);
        }
        i = i + 1;
        assert(r@ =~= joined_lines(texts(sums@).take(i as int)));
    }
    assert(texts(sums@).take(sums@.len() as int) =~= texts(sums@));
    r
}

/// Whether `l` can stand as a line: no line feed in it, and no carriage
/// return at its end.
pub open spec fn plain_line(l: Seq<char>) -> bool {
    (forall|i: int| 0 <= i < l.len() ==> l[i] != '\n') && !(l.len() > 0 && l.last() == '\r')
}

/// Before a line feed right after a plain line, there are the line's characters.
proof fn lemma_until_newline_line(l: Seq<char>, rest: Seq<char>)
    requires
        forall|i: int| 0 <= i < l.len() ==> l[i] != '\n',
    ensures
        until_newline(l + seq!['\n'] + rest) == l.len(),
    decreases l.len(),
{
    if l.len() > 0 {
        assert((l + seq!['\n'] + rest).drop_first() =~= l.drop_first() + seq!['\n'] + rest);
        lemma_until_newline_line(l.drop_first(), rest);
    }
}

/// The lines of the joined lines, taken from the front.
proof fn lemma_lines_front(ls: Seq<Seq<char>>)
    requires
        forall|i: int| 0 <= i < ls.len() ==> plain_line(#[trigger] ls[i]),
    ensures
        text_lines(joined_lines(ls)) == ls,
    decreases ls.len(),
{
    if ls.len() > 0 {
        let first = ls[0];
        let rest = ls.drop_first();
        lemma_joined_front(ls);
        lemma_lines_front(rest);
        let t = first + seq!['\n'] + joined_lines(rest);
        lemma_until_newline_line(first, joined_lines(rest));
        assert(t.take(first.len() as int) =~= first);
        assert(t.skip(first.len() + 1 as int) =~= joined_lines(rest));
        assert(plain_line(ls[0]));
        assert(seq![first] + rest =~= ls);
    }
}

/// The joined lines are the first line, a line feed and the joined rest.
proof fn lemma_joined_front(ls: Seq<Seq<char>>)
    requires
        ls.len() > 0,
    ensures
        joined_lines(ls) == ls[0] + seq!['\n'] + joined_lines(ls.drop_first()),
    decreases ls.len(),
{
    if ls.len() > 1 {
        lemma_joined_front(ls.drop_last());
        assert(ls.drop_last().drop_first() =~= ls.drop_first().drop_last());
        assert(ls.drop_first().last() == ls.last());
    } else {
        assert(ls.drop_first() =~= Seq::<Seq<char>>::empty());
        assert(ls.drop_last() =~= Seq::<Seq<char>>::empty());
    }
}

/// Reading back the lines of the file of sums gives the sums that were
/// written, where no sum holds a line feed or ends with a carriage return.
pub proof fn law_sums_read_back(sums: Seq<Seq<char>>)
    requires
        forall|i: int| 0 <= i < sums.len() ==> plain_line(#[trigger] sums[i]),
    ensures
        text_lines(joined_lines(sums)) == sums,
{
    lemma_lines_front(sums);
}

} // verus!
