//! Packages that live in a remote repository.
use vstd::prelude::*;
use git_url_parse::GitUrl;
use crate::config::{double_sep_start, is_sep, joined, path_join, plain_relative};
use crate::types::opt_str;

verus! {

/// Whether `p` begins `s`.
pub open spec fn starts_with(s: Seq<char>, p: Seq<char>) -> bool {
    p.len() <= s.len() && s.take(p.len() as int) == p
}

/// Whether `p` ends `s`.
pub open spec fn ends_with(s: Seq<char>, p: Seq<char>) -> bool {
    p.len() <= s.len() && s.skip(s.len() - p.len()) == p
}

/// Whether `p` occurs in `s`.
pub open spec fn occurs_in(s: Seq<char>, p: Seq<char>) -> bool {
    exists|i: int| 0 <= i && i + p.len() <= s.len() && #[trigger] s.subrange(i, i + p.len()) == p
}

/// Whether `p` occurs in `s` at `i`.
fn occurs_at(s: &str, p: &str, i: usize) -> (r: bool)
    requires
        i + p@.len() <= s@.len(),
    ensures
        r == (s@.subrange(i as int, i + p@.len()) == p@),
{
    let m = p.unicode_len();
    let n = s.unicode_len();
    let mut k: usize = 0;
    while k < m
        invariant
            m == p@.len(),
            n == s@.len(),
            i + m <= s@.len(),
            k <= m,
            forall|j: int| 0 <= j < k ==> s@[i + j] == p@[j],
        decreases m - k,
    {
        if s.get_char(i + k) != p.get_char(k) {
            assert(s@.subrange(i as int, i + p@.len())[k as int] != p@[k as int]);
            return false;
        }
        k = k + 1;
    }
    assert(s@.subrange(i as int, i + p@.len()) =~= p@);
    true
}

/// Whether `p` occurs in `s`.
pub(crate) fn text_contains(s: &str, p: &str) -> (r: bool)
    ensures
        r == occurs_in(s@, p@),
{
    let n = s.unicode_len();
    let m = p.unicode_len();
    if m > n {
        return false;
    }
    let mut i: usize = 0;
    while i <= n - m
        invariant
            n == s@.len(),
            m == p@.len(),
            m <= n,
            i <= n - m + 1,
            m > 0 || i == 0,
            forall|j: int| 0 <= j < i ==> #[trigger] s@.subrange(j, j + m) != p@,
        decreases n - m + 1 - i,
    {
        if occurs_at(s, p, i) {
            return true;
        }
        assert(m > 0) by {
            if m == 0 {
                assert(s@.subrange(i as int, i as int) =~= p@);
            }
        }
        i = i + 1;
    }
    false
}

/// Whether the text `url` names a remote repository: it begins with `git`,
/// ends with `.git`, or names a scheme (`://`).
pub open spec fn is_remote_text(url: Seq<char>) -> bool {
    starts_with(url, seq!['g', 'i', 't']) || ends_with(url, seq!['.', 'g', 'i', 't'])
        || occurs_in(url, seq![':', '/', '/'])
}

/// Whether the dependency at `url` lives in a remote repository.
pub fn is_remote(url: &str) -> (r: bool)
    ensures
        r == is_remote_text(url@),
{
    proof {
        reveal_strlit("git");
        reveal_strlit(".git");
        reveal_strlit("://");
        assert("git"@ =~= seq!['g', 'i', 't']);
        assert(".git"@ =~= seq!['.', 'g', 'i', 't']);
        assert("://"@ =~= seq![':', '/', '/']);
    }
    let n = url.unicode_len();
    let starts = n >= 3 && occurs_at(url, "git", 0);
    proof {
        if n >= 3 {
            assert(url@.subrange(0, 3) =~= url@.take(3));
        }
    }
    let ends = n >= 4 && occurs_at(url, ".git", n - 4);
    proof {
        if n >= 4 {
            assert(url@.subrange(n - 4, n as int) =~= url@.skip(n - 4));
        }
    }
    starts || ends || text_contains(url, "://")
}


/// The owner (where there is one) and the name of the repository that
/// `GitUrl::parse` of git-url-parse reads from a url with a scheme; nothing
/// where it fails.
pub uninterp spec fn git_owner_name(url: Seq<char>) -> Option<(Option<Seq<char>>, Seq<char>)>;

/// Whether `c` is the small ASCII letter `t` or its capital.
pub open spec fn letter_is(c: char, t: char) -> bool {
    c == t || (c as u32) + 32 == (t as u32)
}

/// Whether `azure` occurs in `s` at `i`, ASCII case ignored.
pub open spec fn azure_at(s: Seq<char>, i: int) -> bool {
    &&& 0 <= i
    &&& i + 5 <= s.len()
    &&& letter_is(s[i], 'a')
    &&& letter_is(s[i + 1], 'z')
    &&& letter_is(s[i + 2], 'u')
    &&& letter_is(s[i + 3], 'r')
    &&& letter_is(s[i + 4], 'e')
}

/// `s` without the `/` characters at its end.
pub open spec fn trim_slashes(s: Seq<char>) -> Seq<char>
    decreases s.len(),
{
    if s.len() > 0 && s.last() == '/' {
        trim_slashes(s.drop_last())
    } else {
        s
    }
}

/// Where the last segment of `t` starts: after its last `/` or `:`, or at 0.
pub open spec fn tail_start(t: Seq<char>) -> int
    decreases t.len(),
{
    if t.len() == 0 {
        0
    } else if t.last() == '/' || t.last() == ':' {
        t.len() as int
    } else {
        tail_start(t.drop_last())
    }
}

/// The last segment of `url` once the `/` at its end are cut: what follows
/// its last `/` or `:`.
pub open spec fn last_segment(url: Seq<char>) -> Seq<char> {
    trim_slashes(url).skip(tail_start(trim_slashes(url)))
}

/// Whether a character is printable ASCII and none of `%`, `?`, `#`, `\`,
/// which the url reader decodes or takes as a query, fragment or separator.
pub open spec fn plain_url_char(c: char) -> bool {
    0x21 <= (c as u32) < 0x7f && c != '%' && c != '?' && c != '#' && c != '\\'
}

/// Whether `/.` occurs in `s` at `i`: the start of a dot segment.
pub open spec fn dot_segment_at(s: Seq<char>, i: int) -> bool {
    0 <= i && i + 2 <= s.len() && s[i] == '/' && s[i + 1] == '.'
}

/// Whether `GitUrl::parse` reads `url` without panicking in its own code.
/// The url is printable ASCII without `%`, `?`, `#` or `\`, has no dot
/// segment (`/.`) and no `azure` in any case (for the hosts of Azure DevOps
/// the crate indexes parts of the path that may be missing), and its last
/// segment has at least two characters and does not start with `.`.  The
/// segment then stays in the path of the url that the crate reads, so an ssh
/// path keeps a character after its first one is cut, and the path always
/// splits into at least one part.
pub open spec fn parse_safe(url: Seq<char>) -> bool {
    &&& forall|i: int| 0 <= i < url.len() ==> plain_url_char(#[trigger] url[i])
    &&& forall|i: int| !#[trigger] dot_segment_at(url, i)
    &&& forall|i: int| !#[trigger] azure_at(url, i)
    &&& last_segment(url).len() >= 2
    &&& last_segment(url)[0] != '.'
}

/// A character that may stand in the scheme of a url.
pub open spec fn scheme_char(c: char) -> bool {
    'a' <= c <= 'z' || 'A' <= c <= 'Z' || '0' <= c <= '9' || c == '+' || c == '-' || c == '.'
}

/// Whether `url` starts with a scheme followed by `://`: a letter, then
/// scheme characters up to the first `:`.
pub open spec fn scheme_url(url: Seq<char>) -> bool {
    exists|k: int|
        1 <= k && k + 3 <= url.len() && #[trigger] url.subrange(k, k + 3) == seq![':', '/', '/'] && ('a'
            <= url[0] <= 'z' || 'A' <= url[0] <= 'Z') && forall|i: int| 0 <= i < k ==> scheme_char(url[i])
}

/// The owner and name of a parse, as values.
pub open spec fn parsed_view(r: Option<(Option<String>, String)>) -> Option<(Option<Seq<char>>, Seq<char>)> {
    match r {
        Some((o, n)) => Some((opt_str(o), n@)),
        None => None,
    }
}

/// `GitUrl::parse` of git-url-parse, of which the owner and name are kept;
/// `None` where it fails.  For a url with a scheme its result is
/// `git_owner_name` of the url; of other urls (a path on disk, an ssh form
/// without a scheme) the crate's reading goes through the platform's file
/// paths, and nothing is stated.
#[verifier::external_body]
fn git_url_parse(url: &str) -> (r: Option<(Option<String>, String)>)
    requires
        parse_safe(url@),
    ensures
        scheme_url(url@) ==> parsed_view(r) == git_owner_name(url@),
{
    match GitUrl::parse(url) {
        Ok(g) => Some((g.owner, g.name)),
        Err(_) => None,
    }
}

/// Where `trim_slashes(url)` ends: the length of `url` without its final `/`.
fn trimmed_end(url: &str) -> (e: usize)
    ensures
        e <= url@.len(),
        trim_slashes(url@) == url@.take(e as int),
{
    let n = url.unicode_len();
    let mut e: usize = n;
    assert(url@.take(n as int) =~= url@);
    while e > 0 && url.get_char(e - 1) == '/'
        invariant
            e <= n == url@.len(),
            trim_slashes(url@) == trim_slashes(url@.take(e as int)),
        decreases e,
    {
        assert(url@.take(e as int).drop_last() =~= url@.take(e - 1));
        e = e - 1;
    }
    proof {
        let t = url@.take(e as int);
        if t.len() > 0 {
            assert(t.last() == url@[e - 1]);
        }
    }
    e
}

/// Where the last segment of `url.take(e)` starts (see `tail_start`).
fn tail_index(url: &str, e: usize) -> (k: usize)
    requires
        e <= url@.len(),
    ensures
        k <= e,
        k == tail_start(url@.take(e as int)),
{
    let mut j: usize = e;
    while j > 0 && url.get_char(j - 1) != '/' && url.get_char(j - 1) != ':'
        invariant
            j <= e <= url@.len(),
            tail_start(url@.take(e as int)) == tail_start(url@.take(j as int)),
        decreases j,
    {
        assert(url@.take(j as int).drop_last() =~= url@.take(j - 1));
        j = j - 1;
    }
    proof {
        let t = url@.take(j as int);
        if t.len() > 0 {
            assert(t.last() == url@[j - 1]);
        }
    }
    j
}

/// Whether `url` is text that `package_path` can read (see `parse_safe`).
pub fn is_parse_safe(url: &str) -> (r: bool)
    ensures
        r == parse_safe(url@),
{
    let n = url.unicode_len();
    let mut i: usize = 0;
    while i < n
        invariant
            n == url@.len(),
            i <= n,
            forall|j: int| 0 <= j < i ==> plain_url_char(#[trigger] url@[j]),
            forall|j: int| 0 <= j < i ==> !#[trigger] dot_segment_at(url@, j),
            forall|j: int| 0 <= j < i ==> !#[trigger] azure_at(url@, j),
        decreases n - i,
    {
        let c = url.get_char(i);
        let cv = c as u32;
        if cv < 0x21 || cv >= 0x7f || c == '%' || c == '?' || c == '#' || c == '\\' {
            assert(!plain_url_char(url@[i as int]));
            return false;
        }
        if n - i >= 2 && c == '/' && url.get_char(i + 1) == '.' {
            assert(dot_segment_at(url@, i as int));
            return false;
        }
        if n - i >= 5 {
            let a = url.get_char(i);
            let z = url.get_char(i + 1);
            let u = url.get_char(i + 2);
            let rr = url.get_char(i + 3);
            let e = url.get_char(i + 4);
            if (a == 'a' || a == 'A') && (z == 'z' || z == 'Z') && (u == 'u' || u == 'U') && (rr == 'r' || rr
                == 'R') && (e == 'e' || e == 'E') {
                assert(azure_at(url@, i as int));
                return false;
            }
        }
        assert(!azure_at(url@, i as int));
        assert(!dot_segment_at(url@, i as int));
        i = i + 1;
    }
    assert forall|j: int| !#[trigger] azure_at(url@, j) by {
        if 0 <= j < n {
        }
    }
    assert forall|j: int| !#[trigger] dot_segment_at(url@, j) by {
        if 0 <= j < n {
        }
    }
    let e = trimmed_end(url);
    let k = tail_index(url, e);
    proof {
        assert(last_segment(url@) =~= url@.subrange(k as int, e as int));
    }
    if e - k < 2 {
        return false;
    }
    url.get_char(k) != '.'
}

/// Whether a base path keeps its start when a relative path is joined to
/// it: it does not start with two separators, and is not a lone `\`.
pub open spec fn rooted_ok(b: Seq<char>) -> bool {
    !double_sep_start(b) && b != seq!['\\']
}

/// The text `packages`.
pub open spec fn packages_text() -> Seq<char> {
    seq!['p', 'a', 'c', 'k', 'a', 'g', 'e', 's']
}

/// Whether `r` is the directory of the package `name` of `owner` under the
/// Ruda directory `ruda`: `ruda/packages/owner/name`, or `ruda/packages/name`
/// without an owner, each step joined as `joined` says; stated where `ruda`
/// keeps its start and the owner and name are plainly relative.
pub open spec fn package_dir_of(ruda: Seq<char>, owner: Option<Seq<char>>, name: Seq<char>, r: Seq<char>) -> bool {
    (rooted_ok(ruda) && plain_relative(name) && (owner matches Some(o) ==> plain_relative(o))) ==> exists|
        p1: Seq<char>,
        p2: Seq<char>,
    |
        #![trigger joined(ruda, packages_text(), p1), joined(p2, name, r)]
        joined(ruda, packages_text(), p1) && (match owner {
            Some(o) => joined(p1, o, p2),
            None => p2 == p1,
        }) && joined(p2, name, r)
}

/// Joining a plainly relative path keeps a base's start.
proof fn lemma_join_rooted(b: Seq<char>, p: Seq<char>, r: Seq<char>)
    requires
        rooted_ok(b),
        plain_relative(p),
        joined(b, p, r),
    ensures
        rooted_ok(r),
{
    assert(r.len() >= 1);
    if b.len() == 0 {
        assert(r == p);
        assert(!is_sep(r[0]));
        assert(r != seq!['\\']) by {
            if r == seq!['\\'] {
                assert(r[0] == '\\');
            }
        }
    } else {
        assert(r.len() >= 2);
        assert(r[0] == b[0]);
        if b.len() == 1 {
            if b[0] == '/' {
                assert(r == b + p);
                assert(r[1] == p[0]);
            } else {
                assert(b[0] != '\\') by {
                    if b[0] == '\\' {
                        assert(b =~= seq!['\\']);
                    }
                }
            }
        } else {
            assert(r[1] == b[1]);
        }
        assert(r != seq!['\\']) by {
            if r == seq!['\\'] {
                assert(r.len() == 1);
            }
        }
    }
}

/// The directory of the package `name` of `owner` under the Ruda directory.
pub fn package_dir(ruda_path: &str, owner: &Option<String>, name: &str) -> (r: String)
    ensures
        package_dir_of(ruda_path@, opt_str(*owner), name@, r@),
{
    proof {
        reveal_strlit("packages");
        assert("packages"@ =~= packages_text());
    }
    let p1 = path_join(ruda_path, "packages");
    let p2 = match owner {
        Some(o) => path_join(p1.as_str(), o.as_str()),
        None => p1.clone(),
    };
    let r = path_join(p2.as_str(), name);
    proof {
        if rooted_ok(ruda_path@) && plain_relative(name@) && (opt_str(*owner) matches Some(o) ==> plain_relative(o)) {
            assert(plain_relative(packages_text()));
            lemma_join_rooted(ruda_path@, packages_text(), p1@);
            if let Some(o) = owner {
                lemma_join_rooted(p1@, o@, p2@);
            }
            assert(joined(ruda_path@, packages_text(), p1@) && joined(p2@, name@, r@));
        }
    }
    r
}

/// The place of the package at `url` under the Ruda directory: a url that
/// is not remote is the place itself; a remote one is read by
/// `GitUrl::parse`, and its place is the directory of its owner and name,
/// or none where the url does not read.
pub fn package_path(ruda_path: &str, url: &str) -> (r: Option<String>)
    requires
        is_remote_text(url@) ==> parse_safe(url@),
    ensures
        !is_remote_text(url@) ==> (r matches Some(s) && s@ == url@),
        is_remote_text(url@) && scheme_url(url@) ==> match git_owner_name(url@) {
            None => r is None,
            Some((o, n)) => (r matches Some(s) && package_dir_of(ruda_path@, o, n, s@)),
        },
        is_remote_text(url@) && r is Some ==> exists|o: Option<Seq<char>>, n: Seq<char>| #[trigger] package_dir_of(
            ruda_path@,
            o,
            n,
            r->0@,
        ),
{
    if !is_remote(url) {
        return Some(url.to_owned());
    }
    match git_url_parse(url) {
        Some((owner, name)) => {
            let d = package_dir(ruda_path, &owner, name.as_str());
            let r = Some(d);
            assert(package_dir_of(ruda_path@, opt_str(owner), name@, r->0@));
            r
        },
        None => None,
    }
}

} // verus!
