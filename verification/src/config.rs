//! The configuration of a project: what its `Ruda.toml` file declares, the
//! defaults a global configuration fills in, and the dependencies with their
//! places resolved.
use vstd::prelude::*;
use crate::lexer::text_eq;
use crate::preprocessor::{dec_value, digit_value, is_digit, parse_digits, parse_usize};
use crate::names::texts;
use crate::context::{find_key, key_at};
use crate::remote::{is_remote, is_remote_text};

verus! {

/// What a project builds.
#[derive(Debug, Clone, Copy, PartialEq, Eq, Structural)]
pub enum ProjectKind {
    Lib,
    Bin,
}

/// How far code of other parties is allowed.
#[allow(non_camel_case_types)]
#[derive(Debug, Clone, Copy, PartialEq, Eq, Structural)]
pub enum _3rdparty {
    Allow,
    Std,
    Sandboxed,
    Deny,
}

/// The version of the runtime a project runs on.
#[derive(Debug, Clone, Copy, PartialEq, Eq, Structural)]
pub enum Runtime {
    Latest,
    Version(usize, usize, usize),
}

/// The number of characters of `s` before its first `.`, or all of them.
pub open spec fn until_dot(s: Seq<char>) -> nat
    decreases s.len(),
{
    if s.len() == 0 || s[0] == '.' {
        0
    } else {
        1 + until_dot(s.drop_first())
    }
}

/// What `str::parse::<usize>` gives: the value of an optional `+` followed
/// by decimal digits, where it fits in a `usize`.
pub open spec fn std_parse_usize(t: Seq<char>) -> Option<nat> {
    if t.len() > 0 && t[0] == '+' {
        parse_usize(t.drop_first())
    } else {
        parse_usize(t)
    }
}

/// The first three parts of `s` split at its dots, where it has at least two.
pub open spec fn three_parts(s: Seq<char>) -> Option<(Seq<char>, Seq<char>, Seq<char>)> {
    let k1 = until_dot(s);
    if k1 < s.len() {
        let r1 = s.skip(k1 + 1 as int);
        let k2 = until_dot(r1);
        if k2 < r1.len() {
            let r2 = r1.skip(k2 + 1 as int);
            Some((s.take(k1 as int), r1.take(k2 as int), r2.take(until_dot(r2) as int)))
        } else {
            None
        }
    } else {
        None
    }
}

/// The text `latest`.
pub open spec fn latest_text() -> Seq<char> {
    seq!['l', 'a', 't', 'e', 's', 't']
}

/// Whether `Runtime::from_str` reads `s` without failing: it is `latest`, or
/// its first three parts at its dots are numbers.
pub open spec fn runtime_text_ok(s: Seq<char>) -> bool {
    s == latest_text() || (three_parts(s) matches Some((a, b, c)) && std_parse_usize(a) is Some
        && std_parse_usize(b) is Some && std_parse_usize(c) is Some)
}

/// The runtime that `s` names.
pub open spec fn runtime_of(s: Seq<char>) -> Runtime {
    if s == latest_text() {
        Runtime::Latest
    } else {
        let (a, b, c) = three_parts(s)->0;
        Runtime::Version(
            std_parse_usize(a)->0 as usize,
            std_parse_usize(b)->0 as usize,
            std_parse_usize(c)->0 as usize,
        )
    }
}

/// The place of the first `.` of `s` at or after `from`, or its length.
fn dot_from(s: &str, from: usize) -> (r: usize)
    requires
        from <= s@.len(),
    ensures
        r == from + until_dot(s@.skip(from as int)),
        r <= s@.len(),
{
    let n = s.unicode_len();
    let mut i: usize = from;
    while i < n && s.get_char(i) != '.'
        invariant
            from <= i <= n == s@.len(),
            until_dot(s@.skip(from as int)) == (i - from) + until_dot(s@.skip(i as int)),
        decreases n - i,
    {
        assert(s@.skip(i as int).drop_first() =~= s@.skip(i + 1));
        i = i + 1;
    }
    i
}

/// Parses a part of a version as `str::parse::<usize>` does.
pub(crate) fn parse_part(s: &str) -> (r: Option<usize>)
    ensures
        match r {
            Some(v) => std_parse_usize(s@) == Some(v as nat),
            None => std_parse_usize(s@) is None,
        },
{
    let n = s.unicode_len();
    if n > 0 && s.get_char(0) == '+' {
        let t = s.substring_char(1, n);
        assert(t@ =~= s@.drop_first());
        assert(t@.take(t@.len() as int) =~= t@);
        parse_digits(t, n - 1)
    } else {
        assert(s@.take(n as int) =~= s@);
        parse_digits(s, n)
    }
}

/// The text of a decimal digit.
fn digit_str(d: usize) -> (r: &'static str)
    requires
        d < 10,
    ensures
        r@ == seq![digit_char(d as nat)],
{
    proof {
        reveal_strlit("0");
        reveal_strlit("1");
        reveal_strlit("2");
        reveal_strlit("3");
        reveal_strlit("4");
        reveal_strlit("5");
        reveal_strlit("6");
        reveal_strlit("7");
        reveal_strlit("8");
        reveal_strlit("9");
    }
    let r = if d == 0 {
        "0"
    } else if d == 1 {
        "1"
    } else if d == 2 {
        "2"
    } else if d == 3 {
        "3"
    } else if d == 4 {
        "4"
    } else if d == 5 {
        "5"
    } else if d == 6 {
        "6"
    } else if d == 7 {
        "7"
    } else if d == 8 {
        "8"
    } else {
        "9"
    };
    assert(r@ =~= seq![digit_char(d as nat)]);
    r
}

/// The character of a decimal digit.
pub open spec fn digit_char(d: nat) -> char {
    if d == 0 {
        '0'
    } else if d == 1 {
        '1'
    } else if d == 2 {
        '2'
    } else if d == 3 {
        '3'
    } else if d == 4 {
        '4'
    } else if d == 5 {
        '5'
    } else if d == 6 {
        '6'
    } else if d == 7 {
        '7'
    } else if d == 8 {
        '8'
    } else {
        '9'
    }
}

/// The decimal text of `n`, as `{}` prints it.
pub open spec fn dec_text(n: nat) -> Seq<char>
    decreases n,
{
    if n < 10 {
        seq![digit_char(n)]
    } else {
        dec_text(n / 10).push(digit_char(n % 10))
    }
}

/// The decimal text of `n`.
fn dec_string(n: usize) -> (r: String)
    ensures
        r@ == dec_text(n as nat),
    decreases n,
{
    if n < 10 {
        String::from_str(digit_str(n))
    } else {
        let r = dec_string(n / 10).concat(digit_str(n % 10));
        assert(r@ =~= dec_text(n as nat));
        r
    }
}

/// The text of a version: its three numbers, separated by dots.
pub open spec fn version_text(a: nat, b: nat, c: nat) -> Seq<char> {
    dec_text(a) + seq!['.'] + dec_text(b) + seq!['.'] + dec_text(c)
}

/// The decimal text of `n` is digits, and reads back as `n`.
proof fn lemma_dec_text(n: nat)
    ensures
        dec_text(n).len() > 0,
        forall|i: int| 0 <= i < dec_text(n).len() ==> is_digit(#[trigger] dec_text(n)[i]),
        dec_value(dec_text(n)) == n,
    decreases n,
{
    let d = n % 10;
    assert(is_digit(digit_char(d)) && digit_value(digit_char(d)) == d);
    if n < 10 {
        assert(dec_text(n).drop_last() =~= Seq::<char>::empty());
        assert(dec_value(dec_text(n)) == dec_value(Seq::<char>::empty()) * 10 + digit_value(digit_char(n)));
    } else {
        lemma_dec_text(n / 10);
        let t = dec_text(n / 10);
        assert(dec_text(n) == t.push(digit_char(d)));
        assert(dec_text(n).drop_last() =~= t);
        assert(dec_value(dec_text(n)) == dec_value(t) * 10 + digit_value(digit_char(d)));
        assert((n / 10) * 10 + n % 10 == n);
        assert forall|i: int| 0 <= i < dec_text(n).len() implies is_digit(#[trigger] dec_text(n)[i]) by {
            if i < t.len() {
                assert(dec_text(n)[i] == t[i]);
            }
        }
    }
}

/// The part up to the first dot of a text of digits followed by a dot or
/// nothing is the digits.
proof fn lemma_until_dot(x: Seq<char>, rest: Seq<char>)
    requires
        forall|i: int| 0 <= i < x.len() ==> is_digit(#[trigger] x[i]),
        rest.len() == 0 || rest[0] == '.',
    ensures
        until_dot(x + rest) == x.len(),
    decreases x.len(),
{
    if x.len() > 0 {
        assert(is_digit(x[0]));
        assert((x + rest).drop_first() =~= x.drop_first() + rest);
        lemma_until_dot(x.drop_first(), rest);
    } else {
        assert(x + rest =~= rest);
    }
}

/// Whether `x` is a nonempty text of digits.
pub open spec fn all_digits(x: Seq<char>) -> bool {
    x.len() > 0 && forall|i: int| 0 <= i < x.len() ==> is_digit(#[trigger] x[i])
}

/// Three texts of digits joined by dots split back into the three.
proof fn lemma_three_parts(ta: Seq<char>, tb: Seq<char>, tc: Seq<char>)
    requires
        all_digits(ta),
        all_digits(tb),
        all_digits(tc),
    ensures
        three_parts(ta + seq!['.'] + tb + seq!['.'] + tc) == Some((ta, tb, tc)),
{
    let s = ta + seq!['.'] + tb + seq!['.'] + tc;
    let rest1 = seq!['.'] + tb + seq!['.'] + tc;
    assert(s =~= ta + rest1);
    lemma_until_dot(ta, rest1);
    let r1 = s.skip(ta.len() + 1 as int);
    let rest2 = seq!['.'] + tc;
    assert(r1 =~= tb + rest2);
    lemma_until_dot(tb, rest2);
    let r2 = r1.skip(tb.len() + 1 as int);
    assert(r2 =~= tc);
    lemma_until_dot(tc, Seq::<char>::empty());
    assert(tc + Seq::<char>::empty() =~= tc);
    assert(s.take(ta.len() as int) =~= ta);
    assert(r1.take(tb.len() as int) =~= tb);
    assert(r2.take(tc.len() as int) =~= tc);
}

/// The decimal text of a `usize` reads back as it by `str::parse::<usize>`.
proof fn lemma_parse_dec(n: usize)
    ensures
        all_digits(dec_text(n as nat)),
        std_parse_usize(dec_text(n as nat)) == Some(n as nat),
{
    lemma_dec_text(n as nat);
    let t = dec_text(n as nat);
    assert(is_digit(t[0]));
    assert(t[0] != '+');
}

/// The version printed by `Runtime::to_string` reads back by
/// `Runtime::from_str` as the same version.
pub proof fn law_version_read_back(a: usize, b: usize, c: usize)
    ensures
        runtime_text_ok(version_text(a as nat, b as nat, c as nat)),
        runtime_of(version_text(a as nat, b as nat, c as nat)) == Runtime::Version(a, b, c),
{
    let ta = dec_text(a as nat);
    let tb = dec_text(b as nat);
    let tc = dec_text(c as nat);
    lemma_parse_dec(a);
    lemma_parse_dec(b);
    lemma_parse_dec(c);
    lemma_three_parts(ta, tb, tc);
    let s = version_text(a as nat, b as nat, c as nat);
    assert(is_digit(ta[0]));
    assert(s[0] == ta[0]);
    assert(s != latest_text()) by {
        if s == latest_text() {
            assert(s[0] == 'l');
        }
    }
}

/// Where the first three parts of `s` at its dots end.
fn part_bounds(s: &str) -> (r: (usize, usize, usize))
    requires
        three_parts(s@) is Some,
    ensures
        r.0 + 1 <= r.1,
        r.1 + 1 <= r.2,
        r.2 <= s@.len(),
        three_parts(s@) == Some(
            (s@.subrange(0, r.0 as int), s@.subrange(r.0 + 1, r.1 as int), s@.subrange(r.1 + 1, r.2 as int)),
        ),
{
    let n = s.unicode_len();
    let k1 = dot_from(s, 0);
    assert(s@.skip(0) =~= s@);
    let ghost r1 = s@.skip(k1 + 1);
    let k2 = dot_from(s, k1 + 1);
    let k3 = dot_from(s, k2 + 1);
    proof {
        assert(r1.skip(k2 - k1) =~= s@.skip(k2 + 1));
        assert(s@.subrange(0, k1 as int) =~= s@.take(k1 as int));
        assert(s@.subrange(k1 + 1, k2 as int) =~= r1.take(k2 - k1 - 1));
        assert(s@.subrange(k2 + 1, k3 as int) =~= s@.skip(k2 + 1).take(k3 - k2 - 1));
    }
    (k1, k2, k3)
}

impl Runtime {
    /// The runtime that `s` names: `latest`, or the numbers of its first
    /// three parts at its dots (more parts are ignored).
    pub fn from_str(s: &str) -> (r: Runtime)
        requires
            runtime_text_ok(s@),
        ensures
            r == runtime_of(s@),
    {
        proof {
            reveal_strlit("latest");
            assert("latest"@ =~= latest_text());
        }
        if text_eq(s, "latest") {
            return Runtime::Latest;
        }
        let (k1, k2, k3) = part_bounds(s);
        let a = parse_part(s.substring_char(0, k1));
        let b = parse_part(s.substring_char(k1 + 1, k2));
        let c = parse_part(s.substring_char(k2 + 1, k3));
        match (a, b, c) {
            (Some(a), Some(b), Some(c)) => Runtime::Version(a, b, c),
            _ => {
                assert(false);
                Runtime::Latest
            },
        }
    }

    /// The latest runtime installed.
    pub fn latest() -> (r: Runtime)
        ensures
            r == Runtime::Version(0, 0, 0),
    {
        Runtime::Version(0, 0, 0)
    }

    /// The version as text; the latest runtime as the version it stands for.
    pub fn to_string(&self) -> (r: String)
        ensures
            *self matches Runtime::Version(a, b, c) ==> r@ == version_text(a as nat, b as nat, c as nat),
            *self is Latest ==> r@ == version_text(0, 0, 0),
    {
        proof {
            reveal_strlit(".");
        }
        let (a, b, c) = match self {
            Runtime::Latest => match Runtime::latest() {
                Runtime::Version(a, b, c) => (a, b, c),
                Runtime::Latest => (0, 0, 0),
            },
            Runtime::Version(a, b, c) => (*a, *b, *c),
        };
        let r = dec_string(a).concat(".").concat(dec_string(b).as_str()).concat(".").concat(
            dec_string(c).as_str(),
        );
        assert(r@ =~= version_text(a as nat, b as nat, c as nat));
        r
    }
}


/// A dependency with its place resolved.
pub struct Dependency {
    pub version: String,
    pub path: String,
    pub profile: String,
    pub _3rdparty: _3rdparty,
    pub args: Vec<String>,
}

/// A dependency as a table of `Ruda.toml` declares it.
pub struct TempDependencyTable {
    pub version: Option<String>,
    pub path: Option<String>,
    pub profile: Option<String>,
    pub _3rdparty: Option<_3rdparty>,
    pub args: Option<Vec<String>>,
}

/// A dependency as `Ruda.toml` declares it: by its place alone, or by a table.
pub enum DependencySource {
    String(String),
    Struct(TempDependencyTable),
}

/// A profile of a project, with the defaults filled in.
pub struct Profile {
    pub runtime: String,
    pub _3rdparty: _3rdparty,
    pub dependencies: Vec<(String, Dependency)>,
    pub binaries: Vec<(String, String)>,
}

/// A profile as `Ruda.toml` declares it.
pub struct TempProfile {
    pub runtime: Option<String>,
    pub _3rdparty: Option<_3rdparty>,
    pub dependencies: Vec<(String, DependencySource)>,
    pub binaries: Vec<(String, String)>,
}

/// The configuration of a project.
pub struct Config {
    pub name: String,
    pub version: String,
    pub kind: ProjectKind,
    pub author: String,
    pub license: String,
    pub description: String,
    pub runtime: Runtime,
    pub _3rdparty: _3rdparty,
    pub dependencies: Vec<(String, Dependency)>,
    pub binaries: Vec<(String, String)>,
    pub profile: Vec<(String, Profile)>,
}

/// The configuration of a project as its `Ruda.toml` declares it.
pub struct TempConfig {
    pub name: Option<String>,
    pub version: Option<String>,
    pub kind: Option<ProjectKind>,
    pub author: Option<String>,
    pub license: Option<String>,
    pub description: Option<String>,
    pub runtime: Option<String>,
    pub _3rdparty: Option<_3rdparty>,
    pub dependencies: Vec<(String, DependencySource)>,
    pub binaries: Vec<(String, String)>,
    pub profile: Vec<(String, TempProfile)>,
}

/// The global configuration, whose values stand where a project gives none.
pub struct GlobalConfig {
    pub author: String,
    pub license: String,
    pub name: String,
    pub runtime: String,
    pub version: String,
    pub kind: ProjectKind,
    pub description: String,
    pub _3rdparty: _3rdparty,
}

/// The text `default`.
pub open spec fn default_text() -> Seq<char> {
    seq!['d', 'e', 'f', 'a', 'u', 'l', 't']
}

/// The contents of optional text, or `d`.
pub open spec fn text_or(o: Option<String>, d: Seq<char>) -> Seq<char> {
    match o {
        Some(s) => s@,
        None => d,
    }
}

/// Whether a path is relative on every platform: it starts with an ASCII
/// letter or digit, `.` or `_`, and holds no `:`.
pub open spec fn plain_relative(p: Seq<char>) -> bool {
    &&& p.len() > 0
    &&& ('a' <= p[0] <= 'z' || 'A' <= p[0] <= 'Z' || '0' <= p[0] <= '9' || p[0] == '.' || p[0] == '_')
    &&& !p.contains(':')
}

/// Whether `c` separates the parts of a path on some platform.
pub open spec fn is_sep(c: char) -> bool {
    c == '/' || c == '\\'
}

/// Whether a base path starts with two separators (a network or verbatim
/// path on some platform).
pub open spec fn double_sep_start(base: Seq<char>) -> bool {
    base.len() >= 2 && is_sep(base[0]) && is_sep(base[1])
}

/// Whether `r` is `p` taken from `base`: `p` itself for an empty base, the
/// two joined where the base ends in `/`, and otherwise the two joined with
/// the platform's separator (`/` or `\`) between them or, where the
/// platform needs none there, without one.
pub open spec fn joined(base: Seq<char>, p: Seq<char>, r: Seq<char>) -> bool {
    if base.len() == 0 {
        r == p
    } else if base.last() == '/' {
        r == base + p
    } else {
        r == base + p || r == base + seq!['/'] + p || r == base + seq!['\\'] + p
    }
}

/// Whether `r` is the place of the dependency at `p` for the project at
/// `project`: a remote place stays as it is, and a plainly relative local
/// place is taken from the project.
pub open spec fn path_fixed(project: Seq<char>, p: Seq<char>, r: Seq<char>) -> bool {
    &&& is_remote_text(p) ==> r == p
    &&& (!is_remote_text(p) && plain_relative(p) && !double_sep_start(project)) ==> joined(project, p, r)
}

/// Whether `d` is the dependency that `src` declares.
pub open spec fn dep_canonical(project: Seq<char>, src: DependencySource, d: Dependency) -> bool {
    match src {
        DependencySource::String(p) => {
            &&& d.version@ == latest_text()
            &&& path_fixed(project, p@, d.path@)
            &&& d.profile@ == default_text()
            &&& d._3rdparty == _3rdparty::Allow
            &&& d.args@.len() == 0
        },
        DependencySource::Struct(t) => {
            &&& d.version@ == text_or(t.version, latest_text())
            &&& t.path is Some
            &&& path_fixed(project, t.path->0@, d.path@)
            &&& d.profile@ == text_or(t.profile, default_text())
            &&& d._3rdparty == (match t._3rdparty {
                Some(x) => x,
                None => _3rdparty::Allow,
            })
            &&& texts(d.args@) == (match t.args {
                Some(a) => texts(a@),
                None => Seq::<Seq<char>>::empty(),
            })
        },
    }
}

/// Whether every table of `deps` gives a place.
pub open spec fn tables_have_paths(deps: Seq<(String, DependencySource)>) -> bool {
    forall|i: int| 0 <= i < deps.len() ==> ((#[trigger] deps[i]).1 matches DependencySource::Struct(t) ==> t.path is Some)
}

/// Whether `out` holds the dependencies that `src` declares, in order.
pub open spec fn deps_canonical(
    project: Seq<char>,
    src: Seq<(String, DependencySource)>,
    out: Seq<(String, Dependency)>,
) -> bool {
    &&& out.len() == src.len()
    &&& forall|i: int| 0 <= i < src.len() ==> (#[trigger] out[i]).0@ == src[i].0@ && dep_canonical(project, src[i].1, out[i].1)
}

/// The `Path::is_relative` of std: whether the path does not start at a
/// root, by the rules of the platform.  Stated is what holds on every
/// platform: a plainly relative path (no root, no drive or other prefix) is
/// relative; of other paths the platforms differ.
#[verifier::external_body]
fn path_is_relative(p: &str) -> (r: bool)
    ensures
        plain_relative(p@) ==> r,
{
    std::path::Path::new(p).is_relative()
}

/// The `Path::join` of std (`PathBuf::push` on a copy of `base`), read back
/// as text: the path `p` taken from `base`.  Stated is what holds on every
/// platform for a plainly relative `p` and a base that does not start with
/// two separators: `joined`, where the separator is the platform's own; of
/// other paths (absolute ones, or verbatim bases that the platform
/// normalizes) nothing is stated.
#[verifier::external_body]
pub(crate) fn path_join(base: &str, p: &str) -> (r: String)
    ensures
        plain_relative(p@) && !double_sep_start(base@) ==> joined(base@, p@, r@),
{
    std::path::Path::new(base).join(p).to_str().unwrap().to_string()
}

/// The place of a dependency of the project at `project`: a remote place as
/// it is; a relative local one taken from the project.
pub fn fix_path(project: &str, path: &str) -> (r: String)
    ensures
        path_fixed(project@, path@, r@),
{
    if is_remote(path) {
        return path.to_owned();
    }
    if path_is_relative(path) {
        path_join(project, path)
    } else {
        path.to_owned()
    }
}

/// The dependency that `src` declares, for the project at `path`.
fn canonicalize_dependency(path: &str, src: &DependencySource) -> (d: Dependency)
    requires
        src matches DependencySource::Struct(t) ==> t.path is Some,
    ensures
        dep_canonical(path@, *src, d),
{
    proof {
        reveal_strlit("latest");
        reveal_strlit("default");
        assert("latest"@ =~= latest_text());
        assert("default"@ =~= default_text());
    }
    match src {
        DependencySource::String(p) => Dependency {
            version: String::from_str("latest"),
            path: fix_path(path, p.as_str()),
            profile: String::from_str("default"),
            _3rdparty: _3rdparty::Allow,
            args: Vec::new(),
        },
        DependencySource::Struct(t) => {
            let version = match &t.version {
                Some(v) => v.clone(),
                None => String::from_str("latest"),
            };
            let p = match &t.path {
                Some(p) => fix_path(path, p.as_str()),
                None => {
                    assert(false);
                    String::new()
                },
            };
            let profile = match &t.profile {
                Some(v) => v.clone(),
                None => String::from_str("default"),
            };
            let third = match t._3rdparty {
                Some(x) => x,
                None => _3rdparty::Allow,
            };
            let args = match &t.args {
                Some(a) => copy_texts(a),
                None => Vec::new(),
            };
            proof {
                if t.args is None {
                    assert(texts(args@) =~= Seq::<Seq<char>>::empty());
                }
            }
            Dependency { version, path: p, profile, _3rdparty: third, args }
        },
    }
}

/// A copy of a list of strings.
fn copy_texts(v: &Vec<String>) -> (r: Vec<String>)
    ensures
        texts(r@) == texts(v@),
{
    let mut r: Vec<String> = Vec::new();
    let mut i: usize = 0;
    while i < v.len()
        invariant
            i <= v@.len(),
            r@.len() == i,
            forall|j: int| 0 <= j < i ==> (#[trigger] r@[j])@ == v@[j]@,
        decreases v@.len() - i,
    {
        r.push(v[i].clone());
        i = i + 1;
    }
    assert(texts(r@) =~= texts(v@));
    r
}

/// The dependencies that `temp` declares, for the project at `path`, in order.
pub fn canonicalize_dependencies(path: &str, temp: &Vec<(String, DependencySource)>) -> (r: Vec<(String, Dependency)>)
    requires
        tables_have_paths(temp@),
    ensures
        deps_canonical(path@, temp@, r@),
{
    let mut r: Vec<(String, Dependency)> = Vec::new();
    let mut i: usize = 0;
    while i < temp.len()
        invariant
            i <= temp@.len(),
            tables_have_paths(temp@),
            r@.len() == i,
            forall|j: int| 0 <= j < i ==> (#[trigger] r@[j]).0@ == temp@[j].0@ && dep_canonical(path@, temp@[j].1, r@[j].1),
        decreases temp@.len() - i,
    {
        let d = canonicalize_dependency(path, &temp[i].1);
        r.push((temp[i].0.clone(), d));
        i = i + 1;
    }
    r
}


/// Whether a declared profile can be turned into a profile: it gives its
/// runtime and its rule for code of other parties, and every dependency
/// table gives a place.
pub open spec fn profile_ok(p: TempProfile) -> bool {
    p.runtime is Some && p._3rdparty is Some && tables_have_paths(p.dependencies@)
}

/// Whether a declared configuration can be turned into a configuration:
/// every field is given, the runtime reads, and the profiles can be turned.
pub open spec fn temp_ok(t: TempConfig) -> bool {
    &&& t.name is Some
    &&& t.version is Some
    &&& t.kind is Some
    &&& t.author is Some
    &&& t.license is Some
    &&& t.description is Some
    &&& t.runtime is Some
    &&& runtime_text_ok(t.runtime->0@)
    &&& t._3rdparty is Some
    &&& tables_have_paths(t.dependencies@)
    &&& forall|i: int| 0 <= i < t.profile@.len() ==> profile_ok(#[trigger] t.profile@[i].1)
}

/// Whether `p` is the profile that `t` declares for the project at `project`.
pub open spec fn profile_from(project: Seq<char>, t: TempProfile, p: Profile) -> bool {
    &&& p.runtime == t.runtime->0
    &&& p._3rdparty == t._3rdparty->0
    &&& deps_canonical(project, t.dependencies@, p.dependencies@)
    &&& p.binaries == t.binaries
}

/// The profile that `t` declares, for the project at `path`.
fn temp_into_profile(path: &str, t: TempProfile) -> (p: Profile)
    requires
        profile_ok(t),
    ensures
        profile_from(path@, t, p),
{
    let dependencies = canonicalize_dependencies(path, &t.dependencies);
    let runtime = match t.runtime {
        Some(r) => r,
        None => {
            assert(false);
            String::new()
        },
    };
    let third = match t._3rdparty {
        Some(x) => x,
        None => {
            assert(false);
            _3rdparty::Allow
        },
    };
    Profile { runtime, _3rdparty: third, dependencies, binaries: t.binaries }
}

/// The configuration that `temp` declares, for the project at `path`.
pub fn temp_into_config(path: &str, temp: TempConfig) -> (c: Config)
    requires
        temp_ok(temp),
    ensures
        c.name == temp.name->0,
        c.version == temp.version->0,
        c.kind == temp.kind->0,
        c.author == temp.author->0,
        c.license == temp.license->0,
        c.description == temp.description->0,
        c.runtime == runtime_of(temp.runtime->0@),
        c._3rdparty == temp._3rdparty->0,
        deps_canonical(path@, temp.dependencies@, c.dependencies@),
        c.binaries == temp.binaries,
        c.profile@.len() == temp.profile@.len(),
        forall|i: int|
            0 <= i < temp.profile@.len() ==> (#[trigger] c.profile@[i]).0 == temp.profile@[i].0
                && profile_from(path@, temp.profile@[i].1, c.profile@[i].1),
{
    let ghost t = temp;
    let runtime = match &temp.runtime {
        Some(r) => Runtime::from_str(r.as_str()),
        None => {
            assert(false);
            Runtime::Latest
        },
    };
    let dependencies = canonicalize_dependencies(path, &temp.dependencies);
    let mut ps = temp.profile;
    let mut profile: Vec<(String, Profile)> = Vec::new();
    let ghost n = ps@.len();
    while ps.len() > 0
        invariant
            t.profile@.len() == n,
            ps@.len() + profile@.len() == n,
            ps@ == t.profile@.skip(profile@.len() as int),
            forall|i: int| 0 <= i < n ==> profile_ok(#[trigger] t.profile@[i].1),
            forall|i: int|
                0 <= i < profile@.len() ==> (#[trigger] profile@[i]).0 == t.profile@[i].0
                    && profile_from(path@, t.profile@[i].1, profile@[i].1),
        decreases ps@.len(),
    {
        let (name, p) = ps.remove(0);
        assert(t.profile@[profile@.len() as int] == (name, p));
        let converted = temp_into_profile(path, p);
        profile.push((name, converted));
        assert(ps@ =~= t.profile@.skip(profile@.len() as int));
    }
    match (temp.name, temp.version, temp.kind, temp.author, temp.license, temp.description, temp._3rdparty) {
        (Some(name), Some(version), Some(kind), Some(author), Some(license), Some(description), Some(third)) => {
            Config {
                name,
                version,
                kind,
                author,
                license,
                description,
                runtime,
                _3rdparty: third,
                dependencies,
                binaries: temp.binaries,
                profile,
            }
        },
        _ => {
            assert(false);
            Config {
                name: String::new(),
                version: String::new(),
                kind: ProjectKind::Bin,
                author: String::new(),
                license: String::new(),
                description: String::new(),
                runtime,
                _3rdparty: _3rdparty::Allow,
                dependencies,
                binaries: temp.binaries,
                profile,
            }
        },
    }
}


/// The value of a dependency table.
pub struct TableV {
    pub version: Option<Seq<char>>,
    pub path: Option<Seq<char>>,
    pub profile: Option<Seq<char>>,
    pub third: Option<_3rdparty>,
    pub args: Option<Seq<Seq<char>>>,
}

/// The value of a declared dependency.
pub enum SourceV {
    Text(Seq<char>),
    Table(TableV),
}

/// The value of a declared dependency.
pub open spec fn source_view(s: DependencySource) -> SourceV {
    match s {
        DependencySource::String(p) => SourceV::Text(p@),
        DependencySource::Struct(t) => SourceV::Table(
            TableV {
                version: opt_text(t.version),
                path: opt_text(t.path),
                profile: opt_text(t.profile),
                third: t._3rdparty,
                args: match t.args {
                    Some(a) => Some(texts(a@)),
                    None => None,
                },
            },
        ),
    }
}

/// The contents of optional text.
pub open spec fn opt_text(o: Option<String>) -> Option<Seq<char>> {
    match o {
        Some(s) => Some(s@),
        None => None,
    }
}

/// The values of named declared dependencies.
pub open spec fn sources_view(v: Seq<(String, DependencySource)>) -> Seq<(Seq<char>, SourceV)> {
    v.map_values(|e: (String, DependencySource)| (e.0@, source_view(e.1)))
}

/// The values of named texts.
pub open spec fn text_pairs(v: Seq<(String, String)>) -> Seq<(Seq<char>, Seq<char>)> {
    v.map_values(|e: (String, String)| (e.0@, e.1@))
}

/// Whether an entry of `s` is named `k`.
pub open spec fn key_in<X>(s: Seq<(Seq<char>, X)>, k: Seq<char>) -> bool {
    exists|i: int| 0 <= i < s.len() && (#[trigger] s[i]).0 == k
}

/// The entries `p`, followed by those of `g`, in order, whose names are not
/// there yet: `p` wins where both name the same thing.
pub open spec fn merge_missing<X>(p: Seq<(Seq<char>, X)>, g: Seq<(Seq<char>, X)>) -> Seq<(Seq<char>, X)>
    decreases g.len(),
{
    if g.len() == 0 {
        p
    } else {
        let m = merge_missing(p, g.drop_last());
        if key_in(m, g.last().0) {
            m
        } else {
            m.push(g.last())
        }
    }
}

/// A copy of a declared dependency.
fn copy_source(s: &DependencySource) -> (r: DependencySource)
    ensures
        source_view(r) == source_view(*s),
{
    match s {
        DependencySource::String(p) => DependencySource::String(p.clone()),
        DependencySource::Struct(t) => DependencySource::Struct(
            TempDependencyTable {
                version: match &t.version {
                    Some(v) => Some(v.clone()),
                    None => None,
                },
                path: match &t.path {
                    Some(v) => Some(v.clone()),
                    None => None,
                },
                profile: match &t.profile {
                    Some(v) => Some(v.clone()),
                    None => None,
                },
                _3rdparty: t._3rdparty,
                args: match &t.args {
                    Some(a) => Some(copy_texts(a)),
                    None => None,
                },
            },
        ),
    }
}

/// Adds to `p` the dependencies of `g` that it does not name.
fn merge_sources(p: &mut Vec<(String, DependencySource)>, g: &Vec<(String, DependencySource)>)
    ensures
        sources_view(final(p)@) == merge_missing(sources_view(old(p)@), sources_view(g@)),
{
    let ghost start = sources_view(p@);
    let mut k: usize = 0;
    while k < g.len()
        invariant
            k <= g@.len(),
            sources_view(p@) == merge_missing(start, sources_view(g@).take(k as int)),
        decreases g@.len() - k,
    {
        let ghost gv = sources_view(g@);
        assert(gv.take(k + 1).drop_last() =~= gv.take(k as int));
        match find_key(p, g[k].0.as_str()) {
            Some(i) => {
                assert(sources_view(p@)[i as int].0 == gv[k as int].0);
            },
            None => {
                proof {
                    assert forall|i: int| 0 <= i < sources_view(p@).len() implies (#[trigger] sources_view(p@)[i]).0 != gv[k as int].0 by {
                        assert(!key_at(p@, g@[k as int].0@, i));
                    }
                }
                let e = (g[k].0.clone(), copy_source(&g[k].1));
                let ghost before = p@;
                p.push(e);
                assert(sources_view(p@) =~= sources_view(before).push(gv[k as int]));
            },
        }
        k = k + 1;
    }
    assert(sources_view(g@).take(g@.len() as int) =~= sources_view(g@));
}

/// Adds to `p` the named texts of `g` that it does not name.
fn merge_pairs(p: &mut Vec<(String, String)>, g: &Vec<(String, String)>)
    ensures
        text_pairs(final(p)@) == merge_missing(text_pairs(old(p)@), text_pairs(g@)),
{
    let ghost start = text_pairs(p@);
    let mut k: usize = 0;
    while k < g.len()
        invariant
            k <= g@.len(),
            text_pairs(p@) == merge_missing(start, text_pairs(g@).take(k as int)),
        decreases g@.len() - k,
    {
        let ghost gv = text_pairs(g@);
        assert(gv.take(k + 1).drop_last() =~= gv.take(k as int));
        match find_key(p, g[k].0.as_str()) {
            Some(i) => {
                assert(text_pairs(p@)[i as int].0 == gv[k as int].0);
            },
            None => {
                proof {
                    assert forall|i: int| 0 <= i < text_pairs(p@).len() implies (#[trigger] text_pairs(p@)[i]).0 != gv[k as int].0 by {
                        assert(!key_at(p@, g@[k as int].0@, i));
                    }
                }
                let e = (g[k].0.clone(), g[k].1.clone());
                let ghost before = p@;
                p.push(e);
                assert(text_pairs(p@) =~= text_pairs(before).push(gv[k as int]));
            },
        }
        k = k + 1;
    }
    assert(text_pairs(g@).take(g@.len() as int) =~= text_pairs(g@));
}

/// `o`, or `d` where it is none.
pub open spec fn or_global<T>(o: Option<T>, d: T) -> Option<T> {
    match o {
        Some(x) => Some(x),
        None => Some(d),
    }
}

/// Whether `after` is the declared profile `before` with the defaults of the
/// project filled in: its runtime and rule where it gives none, and the
/// dependencies and binaries of the project that it does not name.
pub open spec fn profile_merged(
    before: TempProfile,
    after: TempProfile,
    runtime: Option<String>,
    third: Option<_3rdparty>,
    deps: Seq<(String, DependencySource)>,
    bins: Seq<(String, String)>,
) -> bool {
    &&& opt_text(after.runtime) == (if before.runtime is Some { opt_text(before.runtime) } else { opt_text(runtime) })
    &&& after._3rdparty == (if before._3rdparty is Some { before._3rdparty } else { third })
    &&& sources_view(after.dependencies@) == merge_missing(sources_view(before.dependencies@), sources_view(deps))
    &&& text_pairs(after.binaries@) == merge_missing(text_pairs(before.binaries@), text_pairs(bins))
}

/// The project's declared configuration with the global configuration's
/// values where the project gives none, and each profile completed from the
/// project: its runtime and rule where it gives none, and the project's
/// dependencies and binaries that it does not name.
pub fn merge_global(config: TempConfig, global: GlobalConfig) -> (r: TempConfig)
    ensures
        r.author == or_global(config.author, global.author),
        r.license == or_global(config.license, global.license),
        r.name == or_global(config.name, global.name),
        r.runtime == or_global(config.runtime, global.runtime),
        r.version == or_global(config.version, global.version),
        r.kind == or_global(config.kind, global.kind),
        r.description == or_global(config.description, global.description),
        r._3rdparty == or_global(config._3rdparty, global._3rdparty),
        r.dependencies == config.dependencies,
        r.binaries == config.binaries,
        r.profile@.len() == config.profile@.len(),
        forall|i: int|
            0 <= i < config.profile@.len() ==> (#[trigger] r.profile@[i]).0 == config.profile@[i].0
                && profile_merged(config.profile@[i].1, r.profile@[i].1, r.runtime, r._3rdparty, r.dependencies@, r.binaries@),
{
    let TempConfig {
        name,
        version,
        kind,
        author,
        license,
        description,
        runtime,
        _3rdparty: third,
        dependencies,
        binaries,
        profile,
    } = config;
    let author = match author {
        Some(a) => Some(a),
        None => Some(global.author),
    };
    let license = match license {
        Some(a) => Some(a),
        None => Some(global.license),
    };
    let name = match name {
        Some(a) => Some(a),
        None => Some(global.name),
    };
    let runtime = match runtime {
        Some(a) => Some(a),
        None => Some(global.runtime),
    };
    let version = match version {
        Some(a) => Some(a),
        None => Some(global.version),
    };
    let kind = match kind {
        Some(a) => Some(a),
        None => Some(global.kind),
    };
    let description = match description {
        Some(a) => Some(a),
        None => Some(global.description),
    };
    let third = match third {
        Some(a) => Some(a),
        None => Some(global._3rdparty),
    };
    let mut profile = profile;
    let ghost before = profile@;
    let mut i: usize = 0;
    while i < profile.len()
        invariant
            i <= profile@.len() == before.len(),
            forall|j: int| i <= j < before.len() ==> #[trigger] profile@[j] == before[j],
            forall|j: int|
                0 <= j < i ==> (#[trigger] profile@[j]).0 == before[j].0 && profile_merged(
                    before[j].1,
                    profile@[j].1,
                    runtime,
                    third,
                    dependencies@,
                    binaries@,
                ),
        decreases profile@.len() - i,
    {
        let (pname, mut p) = profile.remove(i);
        if p.runtime.is_none() {
            p.runtime = match &runtime {
                Some(r) => Some(r.clone()),
                None => None,
            };
        }
        if p._3rdparty.is_none() {
            p._3rdparty = third;
        }
        merge_sources(&mut p.dependencies, &dependencies);
        merge_pairs(&mut p.binaries, &binaries);
        profile.insert(i, (pname, p));
        i = i + 1;
    }
    TempConfig {
        name,
        version,
        kind,
        author,
        license,
        description,
        runtime,
        _3rdparty: third,
        dependencies,
        binaries,
        profile,
    }
}


/// The entries of a profile stay first and unchanged when the project's are
/// merged into it (the profile's win), and every name of the project's is
/// then named.
pub proof fn law_profile_wins<X>(p: Seq<(Seq<char>, X)>, g: Seq<(Seq<char>, X)>)
    ensures
        merge_missing(p, g).len() >= p.len(),
        merge_missing(p, g).take(p.len() as int) == p,
        forall|i: int| 0 <= i < g.len() ==> key_in(merge_missing(p, g), (#[trigger] g[i]).0),
    decreases g.len(),
{
    if g.len() > 0 {
        let h = g.drop_last();
        law_profile_wins(p, h);
        let m = merge_missing(p, h);
        if !key_in(m, g.last().0) {
            assert(m.push(g.last()).take(p.len() as int) =~= m.take(p.len() as int));
            assert(m.push(g.last())[m.len() as int].0 == g.last().0);
        }
        assert forall|i: int| 0 <= i < g.len() implies key_in(merge_missing(p, g), (#[trigger] g[i]).0) by {
            if i < g.len() - 1 {
                assert(h[i] == g[i]);
                assert(key_in(m, h[i].0));
                let k = choose|k: int| 0 <= k < m.len() && (#[trigger] m[k]).0 == h[i].0;
                if !key_in(m, g.last().0) {
                    assert(m.push(g.last())[k] == m[k]);
                }
            } else {
                if !key_in(m, g.last().0) {
                    assert(m.push(g.last())[m.len() as int].0 == g.last().0);
                }
            }
        }
    }
}

} // verus!
