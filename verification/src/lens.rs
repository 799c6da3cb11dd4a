//! The lens: a browser of the objects of a project, with a history of the
//! pages visited that can be walked back and forth.
use vstd::prelude::*;
use crate::context::Context;
use crate::lexer::text_eq;
use crate::remote::{occurs_in, text_contains};

verus! {

/// How a file is loaded.
#[derive(Debug, Clone, Copy, PartialEq, Eq, Structural)]
pub enum FileType {
    Rd,
    Dll,
}

/// A file of the project.
pub struct File {
    pub name: String,
    pub file_type: FileType,
}

impl File {
    /// A copy of the file.
    pub fn copy(&self) -> (r: File)
        ensures
            r == *self,
    {
        File { name: self.name.clone(), file_type: self.file_type }
    }
}

/// A page of the lens.
pub enum States {
    /// the list of the files of the project
    Main,
    /// the objects of a file
    File(File),
    Enum { file: File, ident: String },
    Struct { file: File, ident: String },
    Function {
        file: File,
        /// the block of a method
        block: Option<String>,
        ident: String,
    },
    Trait { file: File, ident: String },
    Error { file: File, ident: String },
    UserData { file: File, ident: String },
}

/// A step through the history.
#[derive(Debug, Clone, Copy, PartialEq, Eq, Structural)]
pub enum Navigation {
    Back,
    Forward,
}

/// What the user asks of the lens.
pub enum Message {
    Page(States),
    Navigation(Navigation),
}

/// What goes wrong with the lens.
#[derive(Debug, Clone, Copy, PartialEq, Eq, Structural)]
pub enum LensErr {
    CouldNotOpen,
}

impl States {
    /// A copy of the page.
    pub fn copy(&self) -> (r: States)
        ensures
            r == *self,
    {
        match self {
            States::Main => States::Main,
            States::File(f) => States::File(f.copy()),
            States::Enum { file, ident } => States::Enum { file: file.copy(), ident: ident.clone() },
            States::Struct { file, ident } => States::Struct { file: file.copy(), ident: ident.clone() },
            States::Function { file, block, ident } => States::Function {
                file: file.copy(),
                block: match block {
                    Some(b) => Some(b.clone()),
                    None => None,
                },
                ident: ident.clone(),
            },
            States::Trait { file, ident } => States::Trait { file: file.copy(), ident: ident.clone() },
            States::Error { file, ident } => States::Error { file: file.copy(), ident: ident.clone() },
            States::UserData { file, ident } => States::UserData { file: file.copy(), ident: ident.clone() },
        }
    }
}

/// The text `project:/file/ident` of a page that shows `ident` of `file`.
pub open spec fn object_path(project: Seq<char>, file: Seq<char>, ident: Seq<char>) -> Seq<char> {
    project + seq![':', '/'] + file + seq!['/'] + ident
}

/// The place of a page, as the lens shows it.
pub open spec fn page_path(s: States, project: Seq<char>) -> Seq<char> {
    match s {
        States::Main => project,
        States::File(f) => project + seq![':', '/'] + f.name@,
        States::Function { file, block: Some(b), ident } => object_path(project, file.name@, b@ + seq![':'] + ident@),
        States::Function { file, block: None, ident } => object_path(project, file.name@, ident@),
        States::Enum { file, ident } => object_path(project, file.name@, ident@),
        States::Struct { file, ident } => object_path(project, file.name@, ident@),
        States::Trait { file, ident } => object_path(project, file.name@, ident@),
        States::Error { file, ident } => object_path(project, file.name@, ident@),
        States::UserData { file, ident } => object_path(project, file.name@, ident@),
    }
}

/// The text `project:/file/ident`.
fn object_text(project: &str, file: &String, ident: &str) -> (r: String)
    ensures
        r@ == object_path(project@, file@, ident@),
{
    proof {
        reveal_strlit(":/");
        reveal_strlit("/");
    }
    let r = String::from_str(project).concat(":/").concat(file.as_str()).concat("/").concat(ident);
    assert(r@ =~= object_path(project@, file@, ident@));
    r
}

impl States {
    /// The place of the page in the project `project`.
    pub fn into_path(&self, project: &str) -> (r: String)
        ensures
            r@ == page_path(*self, project@),
    {
        proof {
            reveal_strlit(":/");
            reveal_strlit(":");
        }
        match self {
            States::Main => String::from_str(project),
            States::File(file) => {
                let r = String::from_str(project).concat(":/").concat(file.name.as_str());
                assert(r@ =~= page_path(*self, project@));
                r
            },
            States::Enum { file, ident } => object_text(project, &file.name, ident.as_str()),
            States::Struct { file, ident } => object_text(project, &file.name, ident.as_str()),
            States::Function { file, block, ident } => match block {
                Some(b) => {
                    let inner = b.clone().concat(":").concat(ident.as_str());
                    assert(inner@ =~= b@ + seq![':'] + ident@);
                    object_text(project, &file.name, inner.as_str())
                },
                None => object_text(project, &file.name, ident.as_str()),
            },
            States::Trait { file, ident } => object_text(project, &file.name, ident.as_str()),
            States::Error { file, ident } => object_text(project, &file.name, ident.as_str()),
            States::UserData { file, ident } => object_text(project, &file.name, ident.as_str()),
        }
    }
}

/// The lens: the objects shown, the page shown, and the history of pages
/// with a cursor in it.
pub struct Lens {
    pub objects: Context,
    pub state: States,
    /// (cursor, pages)
    pub history: (usize, Vec<States>),
    pub project_name: String,
}

/// The place in the history, the history and the page, after going back.
pub open spec fn back_spec(c: usize, h: Seq<States>, s: States) -> (usize, Seq<States>, States) {
    if c == 0 {
        (c, h, s)
    } else {
        ((c - 1) as usize, h, h[c - 1])
    }
}

/// The place in the history, the history and the page, after going forward.
pub open spec fn forward_spec(c: usize, h: Seq<States>, s: States) -> (usize, Seq<States>, States) {
    if c + 1 >= h.len() {
        (c, h, s)
    } else {
        ((c + 1) as usize, h, h[c + 1])
    }
}

/// The place in the history, the history and the page, after opening the
/// page `p`: the history after the cursor is dropped and the page shown is
/// kept in its place.
pub open spec fn open_spec(c: usize, h: Seq<States>, s: States, p: States) -> (usize, Seq<States>, States) {
    ((c + 1) as usize, if c <= h.len() { h.take(c as int) } else { h }.push(s), p)
}

impl Lens {
    /// Whether the cursor is within the history.
    pub open spec fn wf(&self) -> bool {
        self.history.0 <= self.history.1@.len()
    }

    /// The place in the history, the history and the page shown.
    pub open spec fn nav(&self) -> (usize, Seq<States>, States) {
        (self.history.0, self.history.1@, self.state)
    }

    /// Shows the page before the cursor, where there is one.
    pub fn back(&mut self)
        requires
            old(self).wf(),
        ensures
            final(self).nav() == back_spec(old(self).history.0, old(self).history.1@, old(self).state),
            final(self).objects == old(self).objects,
            final(self).project_name == old(self).project_name,
            final(self).wf(),
    {
        if self.history.0 == 0 {
            return;
        }
        self.history.0 = self.history.0 - 1;
        self.state = self.history.1[self.history.0].copy();
    }

    /// Shows the page after the cursor, where there is one.
    pub fn forward(&mut self)
        requires
            old(self).history.0 < usize::MAX,
        ensures
            final(self).nav() == forward_spec(old(self).history.0, old(self).history.1@, old(self).state),
            final(self).objects == old(self).objects,
            final(self).project_name == old(self).project_name,
            old(self).wf() ==> final(self).wf(),
    {
        if self.history.0 + 1 >= self.history.1.len() {
            return;
        }
        self.history.0 = self.history.0 + 1;
        self.state = self.history.1[self.history.0].copy();
    }

    /// Opens the page `page`: the pages after the cursor are dropped, and
    /// the page shown goes into the history.
    pub fn open_page(&mut self, page: States)
        requires
            old(self).history.0 < usize::MAX,
        ensures
            final(self).nav() == open_spec(old(self).history.0, old(self).history.1@, old(self).state, page),
            final(self).objects == old(self).objects,
            final(self).project_name == old(self).project_name,
            old(self).wf() ==> final(self).wf(),
    {
        let c = self.history.0;
        self.history.1.truncate(c);
        self.history.0 = c + 1;
        let shown = self.state.copy();
        self.history.1.push(shown);
        self.state = page;
    }

    /// Answers a message: opens a page, or steps through the history.
    pub fn update(&mut self, message: Message)
        requires
            old(self).wf(),
            old(self).history.0 < usize::MAX,
        ensures
            message matches Message::Page(p) ==> final(self).nav() == open_spec(
                old(self).history.0,
                old(self).history.1@,
                old(self).state,
                p,
            ),
            message == Message::Navigation(Navigation::Back) ==> final(self).nav() == back_spec(
                old(self).history.0,
                old(self).history.1@,
                old(self).state,
            ),
            message == Message::Navigation(Navigation::Forward) ==> final(self).nav() == forward_spec(
                old(self).history.0,
                old(self).history.1@,
                old(self).state,
            ),
            final(self).objects == old(self).objects,
            final(self).project_name == old(self).project_name,
            final(self).wf(),
    {
        match message {
            Message::Page(page) => self.open_page(page),
            Message::Navigation(Navigation::Back) => self.back(),
            Message::Navigation(Navigation::Forward) => self.forward(),
        }
    }
}

/// Opening a page and going back shows again the page that was shown, with
/// the cursor where it was.
pub proof fn law_open_then_back(c: usize, h: Seq<States>, s: States, p: States)
    requires
        c <= h.len(),
        c < usize::MAX,
    ensures
        ({
            let o = open_spec(c, h, s, p);
            let b = back_spec(o.0, o.1, o.2);
            b.0 == c && b.2 == s
        }),
{
    let o = open_spec(c, h, s, p);
    assert(o.1[c as int] == s);
}

/// Going back and then forward returns to the same place in the history,
/// showing the page kept there, where going back moved.
pub proof fn law_back_then_forward(c: usize, h: Seq<States>, s: States)
    requires
        0 < c < h.len(),
    ensures
        ({
            let b = back_spec(c, h, s);
            let f = forward_spec(b.0, b.1, b.2);
            f == (c, h, h[c as int])
        }),
{
}

/// Going forward and then back returns to the same place in the history,
/// showing the page kept there, where going forward moved.
pub proof fn law_forward_then_back(c: usize, h: Seq<States>, s: States)
    requires
        c + 1 < h.len(),
        c < usize::MAX,
    ensures
        ({
            let f = forward_spec(c, h, s);
            let b = back_spec(f.0, f.1, f.2);
            b == (c, h, h[c as int])
        }),
{
}

/// Walking the history never changes it.
pub proof fn law_walk_keeps_history(c: usize, h: Seq<States>, s: States)
    ensures
        back_spec(c, h, s).1 == h,
        forward_spec(c, h, s).1 == h,
{
}

/// The text `s` in lowercase, as `str::to_lowercase` makes it.
pub uninterp spec fn str_lowercase(s: Seq<char>) -> Seq<char>;

/// The first character of the lowercase of `c`, as `char::to_lowercase`
/// gives it.
pub uninterp spec fn char_lowercase_first(c: char) -> char;

/// `str::to_lowercase` of std: the text in lowercase by the Unicode rules
/// (a function of the text alone).
#[verifier::external_body]
fn lowercase(s: &str) -> (r: String)
    ensures
        r@ == str_lowercase(s@),
{
    s.to_lowercase()
}

/// The first character that `char::to_lowercase` of std yields for `c` (it
/// yields at least one).
#[verifier::external_body]
fn lowercase_first(c: char) -> (r: char)
    ensures
        r == char_lowercase_first(c),
{
    c.to_lowercase().next().unwrap()
}

/// The points and the worth of the last match after the first `k`
/// characters of `name` are held against those of `pattern`: a character
/// equal to the pattern's is worth the last match's worth and 2 more, one
/// equal in lowercase the last worth and 1 more, and another one ends the
/// run of matches.
pub open spec fn score_at(name: Seq<char>, pattern: Seq<char>, k: nat) -> (int, int)
    decreases k,
{
    if k == 0 {
        (0, 0)
    } else {
        let (p, l) = score_at(name, pattern, (k - 1) as nat);
        let c = name[k - 1];
        let t = pattern[k - 1];
        if c == t {
            (p + l + 2, l + 2)
        } else if char_lowercase_first(c) == char_lowercase_first(t) {
            (p + l + 1, l + 1)
        } else {
            (p, 0)
        }
    }
}

/// The number of characters that the scoring holds against each other.
pub open spec fn score_len(name: Seq<char>, pattern: Seq<char>) -> nat {
    if name.len() < pattern.len() {
        name.len()
    } else {
        pattern.len()
    }
}

/// Whether the scoring of `name` against `pattern` is what decides the
/// rank: no earlier rule applies.
pub open spec fn ranked_by_score(pattern: Seq<char>, name: Seq<char>) -> bool {
    &&& pattern.len() > 0
    &&& pattern != name
    &&& str_lowercase(name) != str_lowercase(pattern)
    &&& !occurs_in(name, pattern)
    &&& !occurs_in(str_lowercase(name), str_lowercase(pattern))
}

/// The rank of the object named `name` for the search `pattern`: the
/// highest for an empty or equal search, half of it for one equal in
/// lowercase, a third for a name that holds the search, a quarter for one
/// that holds it in lowercase, and otherwise the points of the scoring, or
/// none without points.
pub open spec fn search_rank(pattern: Seq<char>, name: Seq<char>) -> Option<int> {
    if pattern.len() == 0 || pattern == name {
        Some(i32::MAX as int)
    } else if str_lowercase(name) == str_lowercase(pattern) {
        Some(i32::MAX / 2)
    } else if occurs_in(name, pattern) {
        Some(i32::MAX / 3)
    } else if occurs_in(str_lowercase(name), str_lowercase(pattern)) {
        Some(i32::MAX / 4)
    } else if score_at(name, pattern, score_len(name, pattern)).0 == 0 {
        None
    } else {
        Some(score_at(name, pattern, score_len(name, pattern)).0)
    }
}

/// The points never drop as the scoring goes on, and the last worth is at
/// most the points.
proof fn lemma_score_grows(name: Seq<char>, pattern: Seq<char>, i: nat, j: nat)
    requires
        i <= j,
    ensures
        0 <= score_at(name, pattern, i).1 <= score_at(name, pattern, i).0 <= score_at(name, pattern, j).0,
    decreases j,
{
    if i < j {
        lemma_score_grows(name, pattern, i, (j - 1) as nat);
        lemma_score_grows(name, pattern, (j - 1) as nat, (j - 1) as nat);
    } else if j > 0 {
        lemma_score_grows(name, pattern, (j - 1) as nat, (j - 1) as nat);
    }
}

/// After `k` characters the last worth is at most `2k` and the points at
/// most `k(k + 1)`; so a search and a name of which one has at most 46340
/// characters always score within an `i32`.
pub proof fn lemma_score_bound(name: Seq<char>, pattern: Seq<char>, k: nat)
    ensures
        0 <= score_at(name, pattern, k).1 <= 2 * k,
        0 <= score_at(name, pattern, k).0 <= k * (k + 1),
        k <= 46340 ==> score_at(name, pattern, k).0 <= i32::MAX,
    decreases k,
{
    if k > 0 {
        lemma_score_bound(name, pattern, (k - 1) as nat);
        assert((k - 1) * k + 2 * (k - 1) + 2 == k * (k + 1)) by (nonlinear_arith);
    }
    if k <= 46340 {
        assert(k * (k + 1) <= 46340 * 46341) by (nonlinear_arith)
            requires
                k <= 46340,
        ;
    }
}

/// The rank of the object named `name` for the search `pattern` (see
/// `search_rank`).  The precondition holds wherever the search or the name
/// has at most 46340 characters (`lemma_score_bound`).
pub fn searched(pattern: &str, name: &str) -> (r: Option<i32>)
    requires
        ranked_by_score(pattern@, name@) ==> score_at(name@, pattern@, score_len(name@, pattern@)).0 <= i32::MAX,
    ensures
        match search_rank(pattern@, name@) {
            Some(v) => r == Some(v as i32),
            None => r is None,
        },
{
    if pattern.unicode_len() == 0 || text_eq(pattern, name) {
        return Some(i32::MAX);
    }
    let lp = lowercase(pattern);
    let ln = lowercase(name);
    if text_eq(ln.as_str(), lp.as_str()) {
        return Some(i32::MAX / 2);
    }
    if text_contains(name, pattern) {
        return Some(i32::MAX / 3);
    }
    if text_contains(ln.as_str(), lp.as_str()) {
        return Some(i32::MAX / 4);
    }
    let n = name.unicode_len();
    let m = pattern.unicode_len();
    let k = if n < m {
        n
    } else {
        m
    };
    let ghost total = score_at(name@, pattern@, k as nat).0;
    let mut points: i32 = 0;
    let mut last: i32 = 0;
    let mut i: usize = 0;
    while i < k
        invariant
            k == score_len(name@, pattern@),
            k <= name@.len(),
            k <= pattern@.len(),
            i <= k,
            total == score_at(name@, pattern@, k as nat).0,
            total <= i32::MAX,
            points == score_at(name@, pattern@, i as nat).0,
            last == score_at(name@, pattern@, i as nat).1,
        decreases k - i,
    {
        proof {
            lemma_score_grows(name@, pattern@, i as nat, (i + 1) as nat);
            lemma_score_grows(name@, pattern@, (i + 1) as nat, k as nat);
        }
        let c = name.get_char(i);
        let t = pattern.get_char(i);
        if c == t {
            points = points + last + 2;
            last = last + 2;
        } else if lowercase_first(c) == lowercase_first(t) {
            points = points + last + 1;
            last = last + 1;
        } else {
            last = 0;
        }
        i = i + 1;
    }
    if points == 0 {
        None
    } else {
        Some(points)
    }
}

} // verus!
