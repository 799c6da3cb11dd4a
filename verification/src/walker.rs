//! The walk of source tokens along a grammar, which builds the nodes of the
//! parse tree.
//!
//! The walk is given a budget of steps: each pass of its loop and each node
//! it opens takes one step, and it stops with `ParseError::StepLimit` when
//! the budget is used up.  A grammar can send the walk back over its own
//! nodes without end; the budget is what makes every walk end.
use vstd::prelude::*;
use crate::ast::ParseError;
use crate::context::{find_key, has_key, key_at, keys_unique, lemma_value_of, value_of};
use crate::ast::HeadParam;
use crate::grammar::{listed_kinds, param_name, param_view, Head, NodeType, NodeParameters, Tree};
use crate::lexer::{char_is_whitespace, is_ws_char, lit, parse_token, parse_token_spec, text_eq, token_eq, views, TokenView, Tokens};
use crate::preprocessor::{parse_digits, parse_usize};
use crate::tree_walker::{run_start, token_matches, ArgNodeType, CompareResult, Node, TokenOrNode};

verus! {

/// A node of the parse tree as a value.
pub struct NodeV {
    pub name: TokenView,
    pub data: Option<TokenView>,
    pub nodes: Seq<(Seq<char>, PartV)>,
}

/// A part of a node as a value.
pub enum PartV {
    Array(Seq<NodeV>),
    Value(NodeV),
}

/// The value of a node.
pub open spec fn node_v(n: Node) -> NodeV
    decreases n,
{
    NodeV {
        name: n.name@,
        data: match n.data {
            Some(d) => Some(d@),
            None => None,
        },
        nodes: parts_v(n.nodes@),
    }
}

/// The values of the parts of a node, by name.
pub open spec fn parts_v(m: Seq<(String, ArgNodeType)>) -> Seq<(Seq<char>, PartV)>
    decreases m,
{
    if m.len() == 0 {
        seq![]
    } else {
        parts_v(m.subrange(0, m.len() - 1)).push((m[m.len() - 1].0@, part_v(m[m.len() - 1].1)))
    }
}

/// The value of a part.
pub open spec fn part_v(a: ArgNodeType) -> PartV
    decreases a,
{
    match a {
        ArgNodeType::Array(v) => PartV::Array(nodes_v(v@)),
        ArgNodeType::Value(n) => PartV::Value(node_v(n)),
    }
}

/// The values of nodes.
pub open spec fn nodes_v(s: Seq<Node>) -> Seq<NodeV>
    decreases s,
{
    if s.len() == 0 {
        seq![]
    } else {
        nodes_v(s.subrange(0, s.len() - 1)).push(node_v(s[s.len() - 1]))
    }
}

/// The value of the parts, entry by entry.
pub proof fn lemma_parts_v(m: Seq<(String, ArgNodeType)>)
    ensures
        parts_v(m).len() == m.len(),
        forall|i: int| 0 <= i < m.len() ==> #[trigger] parts_v(m)[i] == (m[i].0@, part_v(m[i].1)),
    decreases m.len(),
{
    if m.len() > 0 {
        lemma_parts_v(m.subrange(0, m.len() - 1));
    }
}

/// The values of nodes, node by node.
pub proof fn lemma_nodes_v(s: Seq<Node>)
    ensures
        nodes_v(s).len() == s.len(),
        forall|i: int| 0 <= i < s.len() ==> #[trigger] nodes_v(s)[i] == node_v(s[i]),
    decreases s.len(),
{
    if s.len() > 0 {
        lemma_nodes_v(s.subrange(0, s.len() - 1));
    }
}

/// The values of parts are those of their entries.
pub proof fn lemma_parts_v_eq(m: Seq<(String, ArgNodeType)>, e: Seq<(Seq<char>, PartV)>)
    requires
        e.len() == m.len(),
        forall|i: int| 0 <= i < m.len() ==> #[trigger] e[i] == (m[i].0@, part_v(m[i].1)),
    ensures
        parts_v(m) == e,
{
    lemma_parts_v(m);
    assert(parts_v(m) =~= e);
}

/// A copy of a node and of all its parts.
pub fn copy_node(n: &Node) -> (r: Node)
    ensures
        node_v(r) == node_v(*n),
    decreases n,
{
    let mut parts: Vec<(String, ArgNodeType)> = Vec::new();
    let mut i: usize = 0;
    while i < n.nodes.len()
        invariant
            i <= n.nodes@.len(),
            parts@.len() == i,
            forall|k: int| 0 <= k < i ==> #[trigger] parts@[k].0@ == n.nodes@[k].0@ && part_v(parts@[k].1) == part_v(n.nodes@[k].1),
        decreases n.nodes@.len() - i,
    {
        let p = match &n.nodes[i].1 {
            ArgNodeType::Array(v) => {
                let mut items: Vec<Node> = Vec::new();
                let mut j: usize = 0;
                while j < v.len()
                    invariant
                        i < n.nodes@.len(),
                        n.nodes@[i as int].1 == ArgNodeType::Array(*v),
                        j <= v@.len(),
                        items@.len() == j,
                        forall|k: int| 0 <= k < j ==> #[trigger] node_v(items@[k]) == node_v(v@[k]),
                    decreases v@.len() - j,
                {
                    proof {
                        let e = n.nodes@[i as int];
                        assert(decreases_to!(*n => n.nodes));
                        assert(decreases_to!(n.nodes => n.nodes@));
                        assert(decreases_to!(n.nodes@ => e));
                        assert(decreases_to!(e => e.1));
                        assert(decreases_to!(e.1 => e.1->Array_0));
                        assert(e.1->Array_0 == *v);
                        assert(decreases_to!(*v => v@));
                        assert(decreases_to!(v@ => v@[j as int]));
                    }
                    items.push(copy_node(&v[j]));
                    j = j + 1;
                }
                proof {
                    lemma_nodes_v(items@);
                    lemma_nodes_v(v@);
                    assert(nodes_v(items@) =~= nodes_v(v@));
                }
                ArgNodeType::Array(items)
            },
            ArgNodeType::Value(m) => ArgNodeType::Value(copy_node(m)),
        };
        parts.push((n.nodes[i].0.clone(), p));
        i = i + 1;
    }
    proof {
        lemma_parts_v(parts@);
        lemma_parts_v(n.nodes@);
        assert(parts_v(parts@) =~= parts_v(n.nodes@));
    }
    Node {
        name: n.name.copy(),
        data: match &n.data {
            Some(d) => Some(d.copy()),
            None => None,
        },
        nodes: parts,
    }
}

/// What a scope tells the scope around it: to go back over its nodes, to
/// stay on them, to end with it, or to go on.
#[derive(Debug, Clone, Copy, PartialEq, Eq, Structural)]
pub enum ReturnActions {
    Freeze,
    Nothing,
    Chain,
    Advance,
}

/// A parse error as a value.
pub enum ErrV {
    Expected(TokenView, TokenView),
    ExpectedOneOf(Seq<TokenView>, TokenView),
    Msg(Seq<char>),
    FileEnd,
    FileEndPeaceful,
    Pass(Seq<char>),
    WrongEndingToken(TokenView, TokenView),
    EmptyNodeParameter(Seq<char>),
    StepLimit,
}

/// The value of a parse error.
pub open spec fn err_v(e: ParseError) -> ErrV {
    match e {
        ParseError::Expected(a, b) => ErrV::Expected(a@, b@),
        ParseError::ExpectedOneOf(a, b) => ErrV::ExpectedOneOf(views(a@), b@),
        ParseError::Msg(m) => ErrV::Msg(m@),
        ParseError::FileEnd => ErrV::FileEnd,
        ParseError::FileEndPeaceful => ErrV::FileEndPeaceful,
        ParseError::Pass(m) => ErrV::Pass(m@),
        ParseError::WrongEndingToken(a, b) => ErrV::WrongEndingToken(a@, b@),
        ParseError::EmptyNodeParameter(m) => ErrV::EmptyNodeParameter(m@),
        ParseError::StepLimit => ErrV::StepLimit,
    }
}

/// The value of what a scope returns.
pub type OutV = Result<Option<(nat, ReturnActions)>, (ErrV, bool)>;

/// The value of what `parse_scope` returns.
pub open spec fn out_v(r: Result<Option<(usize, ReturnActions)>, (ParseError, bool)>) -> OutV {
    match r {
        Ok(Some((n, a))) => Ok(Some((n as nat, a))),
        Ok(None) => Ok(None),
        Err((e, h)) => Err((err_v(e), h)),
    }
}

/// The place of the first entry of `m` named `k`.
pub open spec fn vfind<V>(m: Seq<(Seq<char>, V)>, k: Seq<char>) -> Option<int>
    decreases m.len(),
{
    if m.len() == 0 {
        None
    } else if m[0].0 == k {
        Some(0)
    } else {
        match vfind(m.subrange(1, m.len() as int), k) {
            Some(i) => Some(i + 1),
            None => None,
        }
    }
}

/// `vfind` gives the first place of the name, or none where it is missing.
pub proof fn lemma_vfind<V>(m: Seq<(Seq<char>, V)>, k: Seq<char>)
    ensures
        match vfind(m, k) {
            Some(i) => 0 <= i < m.len() && m[i].0 == k && forall|j: int| 0 <= j < i ==> m[j].0 != k,
            None => forall|j: int| 0 <= j < m.len() ==> m[j].0 != k,
        },
    decreases m.len(),
{
    if m.len() > 0 && m[0].0 != k {
        let t = m.subrange(1, m.len() as int);
        lemma_vfind(t, k);
        assert forall|j: int| 1 <= j < m.len() implies m[j].0 == t[j - 1].0 by {}
    }
}

/// The value of the argument named `k`: that of its first entry.
pub open spec fn arg_of(a: Seq<(String, String)>, k: Seq<char>) -> Option<Seq<char>>
    decreases a.len(),
{
    if a.len() == 0 {
        None
    } else if a[0].0@ == k {
        Some(a[0].1@)
    } else {
        arg_of(a.subrange(1, a.len() as int), k)
    }
}

/// The value of the argument named `k`, read from the first matching entry.
pub fn get_arg<'a>(a: &'a Vec<(String, String)>, k: &str) -> (r: Option<&'a String>)
    ensures
        match r {
            Some(v) => arg_of(a@, k@) == Some(v@),
            None => arg_of(a@, k@) is None,
        },
{
    match find_key(a, k) {
        Some(i) => {
            proof {
                lemma_arg_of(a@, k@, i as int);
            }
            Some(&a[i].1)
        },
        None => {
            proof {
                lemma_arg_of_none(a@, k@);
            }
            None
        },
    }
}

/// The first entry named `k` gives the value.
proof fn lemma_arg_of(a: Seq<(String, String)>, k: Seq<char>, i: int)
    requires
        key_at(a, k, i),
        forall|j: int| 0 <= j < i ==> (#[trigger] a[j]).0@ != k,
    ensures
        arg_of(a, k) == Some(a[i].1@),
    decreases a.len(),
{
    if i > 0 {
        let t = a.subrange(1, a.len() as int);
        assert(key_at(t, k, i - 1));
        assert forall|j: int| 0 <= j < i - 1 implies (#[trigger] t[j]).0@ != k by {
            assert(t[j] == a[j + 1]);
        }
        lemma_arg_of(t, k, i - 1);
    }
}

/// No entry named `k` gives no value.
proof fn lemma_arg_of_none(a: Seq<(String, String)>, k: Seq<char>)
    requires
        !has_key(a, k),
    ensures
        arg_of(a, k) is None,
    decreases a.len(),
{
    if a.len() > 0 {
        assert(!key_at(a, k, 0));
        let t = a.subrange(1, a.len() as int);
        assert forall|j: int| !key_at(t, k, j) by {
            if key_at(t, k, j) {
                assert(key_at(a, k, j + 1));
            }
        }
        lemma_arg_of_none(t, k);
    }
}

/// What `str::parse::<usize>` gives: digits, perhaps after a `+`.
pub open spec fn parse_uint(s: Seq<char>) -> Option<nat> {
    if s.len() > 0 && s[0] == '+' {
        parse_usize(s.subrange(1, s.len() as int))
    } else {
        parse_usize(s)
    }
}

/// `str::parse::<usize>`.
pub fn parse_uint_exec(s: &str) -> (r: Option<usize>)
    ensures
        match r {
            Some(v) => parse_uint(s@) == Some(v as nat),
            None => parse_uint(s@) is None,
        },
{
    let n = s.unicode_len();
    if n > 0 && s.get_char(0) == '+' {
        let t = s.substring_char(1, n);
        assert(t@.take((n - 1) as int) =~= t@);
        parse_digits(t, n - 1)
    } else {
        assert(s@.take(n as int) =~= s@);
        parse_digits(s, n)
    }
}

/// What has been read of `s` when splitting it at whitespace: the words done
/// and the word being read.
pub open spec fn ws_acc(s: Seq<char>) -> (Seq<Seq<char>>, Seq<char>)
    decreases s.len(),
{
    if s.len() == 0 {
        (seq![], seq![])
    } else {
        let (d, c) = ws_acc(s.drop_last());
        if is_ws_char(s.last()) {
            if c.len() > 0 {
                (d.push(c), seq![])
            } else {
                (d, seq![])
            }
        } else {
            (d, c.push(s.last()))
        }
    }
}

/// The words of `s`, as `str::split_whitespace` gives them.
pub open spec fn ws_words(s: Seq<char>) -> Seq<Seq<char>> {
    let (d, c) = ws_acc(s);
    if c.len() > 0 {
        d.push(c)
    } else {
        d
    }
}

/// What has been read of `s` when splitting it at spaces.
pub open spec fn sp_acc(s: Seq<char>) -> (Seq<Seq<char>>, Seq<char>)
    decreases s.len(),
{
    if s.len() == 0 {
        (seq![], seq![])
    } else {
        let (d, c) = sp_acc(s.drop_last());
        if s.last() == ' ' {
            (d.push(c), seq![])
        } else {
            (d, c.push(s.last()))
        }
    }
}

/// The pieces of `s` between spaces, as `str::split(" ")` gives them.
pub open spec fn space_parts(s: Seq<char>) -> Seq<Seq<char>> {
    let (d, c) = sp_acc(s);
    d.push(c)
}

/// The values of strings.
pub open spec fn strs_v(v: Seq<String>) -> Seq<Seq<char>> {
    v.map_values(|w: String| w@)
}

/// The words of `s`, split at whitespace.
pub fn split_words(s: &str) -> (r: Vec<String>)
    ensures
        strs_v(r@) == ws_words(s@),
{
    let n = s.unicode_len();
    let mut done: Vec<String> = Vec::new();
    let mut start: usize = 0;
    let mut i: usize = 0;
    while i < n
        invariant
            n == s@.len(),
            start <= i <= n,
            ws_acc(s@.take(i as int)) == (strs_v(done@), s@.subrange(start as int, i as int)),
        decreases n - i,
    {
        let c = s.get_char(i);
        proof {
            assert(s@.take(i + 1).drop_last() =~= s@.take(i as int));
            assert(s@.take(i + 1).last() == c);
        }
        if char_is_whitespace(c) {
            if start < i {
                let w = lit(s.substring_char(start, i));
                let ghost before = done@;
                done.push(w);
                assert(strs_v(done@) =~= strs_v(before).push(w@));
            }
            start = i + 1;
            assert(s@.subrange(start as int, i + 1) =~= Seq::<char>::empty());
        } else {
            assert(s@.subrange(start as int, i + 1) =~= s@.subrange(start as int, i as int).push(c));
        }
        i = i + 1;
    }
    assert(s@.take(n as int) =~= s@);
    if start < n {
        let w = lit(s.substring_char(start, n));
        let ghost before = done@;
        done.push(w);
        assert(strs_v(done@) =~= strs_v(before).push(w@));
    }
    done
}

/// The pieces of `s` between spaces.
pub fn split_spaces(s: &str) -> (r: Vec<String>)
    ensures
        strs_v(r@) == space_parts(s@),
{
    let n = s.unicode_len();
    let mut done: Vec<String> = Vec::new();
    let mut start: usize = 0;
    let mut i: usize = 0;
    while i < n
        invariant
            n == s@.len(),
            start <= i <= n,
            sp_acc(s@.take(i as int)) == (strs_v(done@), s@.subrange(start as int, i as int)),
        decreases n - i,
    {
        let c = s.get_char(i);
        proof {
            assert(s@.take(i + 1).drop_last() =~= s@.take(i as int));
            assert(s@.take(i + 1).last() == c);
        }
        if c == ' ' {
            let w = lit(s.substring_char(start, i));
            let ghost before = done@;
            done.push(w);
            assert(strs_v(done@) =~= strs_v(before).push(w@));
            start = i + 1;
            assert(s@.subrange(start as int, i + 1) =~= Seq::<char>::empty());
        } else {
            assert(s@.subrange(start as int, i + 1) =~= s@.subrange(start as int, i as int).push(c));
        }
        i = i + 1;
    }
    assert(s@.take(n as int) =~= s@);
    let w = lit(s.substring_char(start, n));
    let ghost before = done@;
    done.push(w);
    assert(strs_v(done@) =~= strs_v(before).push(w@));
    done
}

/// `m` with the first entry named `k` set to `v`, or `v` added at the end
/// under that name.
pub open spec fn vput<V>(m: Seq<(Seq<char>, V)>, k: Seq<char>, v: V) -> Seq<(Seq<char>, V)> {
    match vfind(m, k) {
        Some(i) => m.update(i, (k, v)),
        None => m.push((k, v)),
    }
}

/// The empty part that a parameter starts with: an empty list, or a node
/// named `'none`.
pub open spec fn fresh_part_v(array: bool) -> PartV {
    if array {
        PartV::Array(seq![])
    } else {
        PartV::Value(NodeV { name: TokenView::Text("'none"@), data: None, nodes: seq![] })
    }
}

/// The empty parts of the parameters `ps`, by name, in the order the names
/// first occur.
pub open spec fn fresh_v(ps: Seq<HeadParam>) -> Seq<(Seq<char>, PartV)>
    decreases ps.len(),
{
    if ps.len() == 0 {
        seq![]
    } else {
        vput(fresh_v(ps.drop_last()), param_name(ps.last()), fresh_part_v(ps.last() is Array))
    }
}

/// Where names are distinct, setting an entry as a map does sets the value
/// of its first entry.
pub proof fn lemma_put_parts(m: Seq<(String, ArgNodeType)>, k: String, v: ArgNodeType)
    requires
        keys_unique(m),
    ensures
        parts_v(crate::tree_walker::put_spec(m, k, v)) == vput(parts_v(m), k@, part_v(v)),
{
    let pm = parts_v(m);
    lemma_parts_v(m);
    lemma_vfind(pm, k@);
    let m2 = crate::tree_walker::put_spec(m, k, v);
    lemma_parts_v(m2);
    if has_key(m, k@) {
        let c = choose|i: int| key_at(m, k@, i);
        assert(key_at(m, k@, c));
        match vfind(pm, k@) {
            Some(i) => {
                if i != c {
                    if i < c {
                        assert(m[i].0@ != m[c].0@);
                    } else {
                        assert(pm[c].0 == k@);
                    }
                }
                assert(parts_v(m2) =~= pm.update(i, (k@, part_v(v))));
            },
            None => {
                assert(pm[c].0 == k@);
            },
        }
    } else {
        match vfind(pm, k@) {
            Some(i) => {
                assert(key_at(m, k@, i));
            },
            None => {
                assert(parts_v(m2) =~= pm.push((k@, part_v(v))));
            },
        }
    }
}

/// What the walk carries from step to step: where it is in the tokens, the
/// parts of the node being built, whether errors are hard, the global parts,
/// and the steps left.
pub struct Walk {
    pub idx: int,
    pub data: Seq<(Seq<char>, PartV)>,
    pub hard: bool,
    pub globals: Seq<(Seq<char>, PartV)>,
    pub fuel: nat,
}

/// The walk with the place `i`.
pub open spec fn at(w: Walk, i: int) -> Walk {
    Walk { idx: i, data: w.data, hard: w.hard, globals: w.globals, fuel: w.fuel }
}

/// Where the loop of a scope is: its node, and whether the token and the
/// node are to be passed at the end of the pass.
pub struct Loc {
    pub node_idx: int,
    pub adv_tok: bool,
    pub adv_node: bool,
}

/// A place in the loop.
pub open spec fn loc(node_idx: int, adv_tok: bool, adv_node: bool) -> Loc {
    Loc { node_idx, adv_tok, adv_node }
}

/// How a piece of a pass of the loop ends: the pass goes on, the loop ends,
/// or the scope returns.
pub enum Flow {
    Go(Loc, Walk),
    Break(Loc, Walk),
    Ret(OutV, Walk),
}

/// What the walk reads: the tokens and the grammar.
pub struct Ctx {
    pub toks: Seq<TokenView>,
    pub syn: Seq<(String, Head)>,
}

/// A scope: the arguments of the node that opened its head, its nodes, and
/// the tokens that end it (`endon`) or end it and are passed (`endwith`).
pub struct Scope {
    pub params: Seq<(String, String)>,
    pub nodes: Seq<NodeType>,
    pub endon: Option<TokenView>,
    pub endwith: Option<TokenView>,
}

/// The scope of these nodes under these arguments.
pub open spec fn scope_of(params: Seq<(String, String)>, nodes: Seq<NodeType>) -> Scope {
    Scope {
        params,
        nodes,
        endon: match arg_of(params, "endon"@) {
            Some(a) => Some(parse_token_spec(a)),
            None => None,
        },
        endwith: match arg_of(params, "endwith"@) {
            Some(a) => Some(parse_token_spec(a)),
            None => None,
        },
    }
}

/// What the walk found: the token at its place, or a node it built.
pub enum FoundV {
    Tok,
    Node(NodeV),
}

/// The node recorded of what was found at place `i` where the grammar
/// expected `expected`; nothing where the place is past the tokens.
pub open spec fn item_of(toks: Seq<TokenView>, found: FoundV, expected: TokenView, i: int) -> Option<NodeV> {
    match found {
        FoundV::Node(n) => Some(n),
        FoundV::Tok => if 0 <= i < toks.len() {
            Some(
                NodeV {
                    name: toks[i],
                    data: if expected is String {
                        Some(expected)
                    } else {
                        None
                    },
                    nodes: seq![],
                },
            )
        } else {
            None
        },
    }
}

/// A part with `item` recorded: added to a list, or in place of a node.
pub open spec fn set_v(item: NodeV, p: PartV) -> PartV {
    match p {
        PartV::Array(s) => PartV::Array(s.push(item)),
        PartV::Value(_) => PartV::Value(item),
    }
}

/// The start of the optional nodes before node `i`, counting the expected
/// node before them.
pub open spec fn mstart(s: Seq<NodeType>, i: int) -> int {
    if s[run_start(s, i)] is Expect || s[run_start(s, i)] is Maybe {
        run_start(s, i)
    } else {
        run_start(s, i) + 1
    }
}

/// The tokens that the nodes `a..b` look for.
pub open spec fn range_kinds(s: Seq<NodeType>, a: int, b: int) -> Seq<TokenView> {
    if a < b {
        listed_kinds(s.subrange(a, b))
    } else {
        seq![]
    }
}

/// The error at node `node_idx` (not the first) when the token at `i` is
/// none of those that the nodes around it look for.
pub open spec fn one_of_err(c: Ctx, sc: Scope, node_idx: int, i: int) -> ErrV {
    ErrV::ExpectedOneOf(
        range_kinds(
            sc.nodes,
            mstart(sc.nodes, node_idx - 1),
            crate::tree_walker::run_end(sc.nodes, node_idx),
        ),
        c.toks[i],
    )
}

/// The error when node `node_idx`, which looks for `kind`, does not match;
/// nothing where the place is past the tokens.
pub open spec fn kind_err(c: Ctx, sc: Scope, node_idx: int, kind: TokenView, w: Walk) -> Option<OutV> {
    if !(0 <= w.idx < c.toks.len()) {
        None
    } else if node_idx == 0 {
        Some(Err((ErrV::Expected(kind, c.toks[w.idx]), w.hard)))
    } else {
        Some(Err((one_of_err(c, sc, node_idx, w.idx), w.hard)))
    }
}

/// Recording what was found in the parts named by `words`, each looked up
/// among the node's parts and then the global ones; the walk after, or the
/// error for a name that is neither, with the walk.
pub open spec fn set_all(toks: Seq<TokenView>, words: Seq<Seq<char>>, found: FoundV, expected: TokenView, w: Walk) -> Option<
    Result<Walk, (OutV, Walk)>,
>
    decreases words.len(),
{
    if words.len() == 0 {
        Some(Ok(w))
    } else {
        let wd = words[0];
        let rest = words.subrange(1, words.len() as int);
        match vfind(w.data, wd) {
            Some(i) => match item_of(toks, found, expected, w.idx) {
                None => None,
                Some(item) => set_all(
                    toks,
                    rest,
                    found,
                    expected,
                    Walk {
                        idx: w.idx,
                        data: w.data.update(i, (w.data[i].0, set_v(item, w.data[i].1))),
                        hard: w.hard,
                        globals: w.globals,
                        fuel: w.fuel,
                    },
                ),
            },
            None => match vfind(w.globals, wd) {
                Some(i) => match item_of(toks, found, expected, w.idx) {
                    None => None,
                    Some(item) => set_all(
                        toks,
                        rest,
                        found,
                        expected,
                        Walk {
                            idx: w.idx,
                            data: w.data,
                            hard: w.hard,
                            globals: w.globals.update(i, (w.globals[i].0, set_v(item, w.globals[i].1))),
                            fuel: w.fuel,
                        },
                    ),
                },
                None => Some(Err((Err((ErrV::EmptyNodeParameter(wd), w.hard)), w))),
            },
        }
    }
}

/// The arguments `back`, `end`, `pass` and `err` of a node that matched.
pub open spec fn check_tail(c: Ctx, sc: Scope, args: Seq<(String, String)>, kind: TokenView, l: Loc, w: Walk) -> Option<Flow> {
    match arg_of(args, "back"@) {
        Some(a) => match parse_uint(a) {
            None => None,
            Some(num) => if num <= l.node_idx {
                check_end(c, sc, args, kind, loc(l.node_idx - num, l.adv_tok, false), w)
            } else if w.idx + 1 > usize::MAX {
                None
            } else {
                Some(
                    Flow::Ret(
                        Ok(Some(((num - l.node_idx - 1) as nat, ReturnActions::Freeze))),
                        at(w, w.idx + 1),
                    ),
                )
            },
        },
        None => check_end(c, sc, args, kind, l, w),
    }
}

/// The arguments `end`, `pass` and `err` of a node that matched.
pub open spec fn check_end(c: Ctx, sc: Scope, args: Seq<(String, String)>, kind: TokenView, l: Loc, w: Walk) -> Option<Flow> {
    match arg_of(args, "end"@) {
        Some(a) => if a == "true"@ {
            if w.idx + 1 > usize::MAX {
                None
            } else {
                Some(Flow::Break(l, at(w, w.idx + 1)))
            }
        } else {
            Some(Flow::Break(l, w))
        },
        None => match arg_of(args, "pass"@) {
            Some(a) => Some(Flow::Ret(Err((ErrV::Pass(a), w.hard)), w)),
            None => match arg_of(args, "err"@) {
                Some(a) => if a.len() > 0 {
                    Some(Flow::Ret(Err((ErrV::Msg(a), w.hard)), w))
                } else {
                    match kind_err(c, sc, l.node_idx, kind, w) {
                        None => None,
                        Some(o) => Some(Flow::Ret(o, w)),
                    }
                },
                None => Some(Flow::Go(l, w)),
            },
        },
    }
}

/// The arguments of a node that matched, in the order the walk reads them:
/// `peek`, `advance`, `#advance`, `harderr`, `notempty` or else `set`, then
/// `back`, `end`, `pass` and `err`; nothing where the walk would fail.
pub open spec fn check_spec(
    c: Ctx,
    sc: Scope,
    args: Seq<(String, String)>,
    kind: TokenView,
    found: FoundV,
    l: Loc,
    w: Walk,
) -> Option<Flow> {
    let l1 = if arg_of(args, "peek"@) is Some {
        loc(l.node_idx, false, l.adv_node)
    } else {
        l
    };
    let i1 = match arg_of(args, "advance"@) {
        Some(a) => w.idx + match parse_uint(a) {
            Some(n) => n as int,
            None => 1int,
        },
        None => w.idx,
    };
    let i2 = match arg_of(args, "#advance"@) {
        Some(a) => i1 - match parse_uint(a) {
            Some(n) => n as int,
            None => 1int,
        },
        None => i1,
    };
    let h = match arg_of(args, "harderr"@) {
        Some(a) => a == "true"@,
        None => w.hard,
    };
    let w2 = Walk { idx: i2, data: w.data, hard: h, globals: w.globals, fuel: w.fuel };
    if i1 > usize::MAX || i2 < 0 {
        None
    } else {
        let r3: Option<Result<Walk, (OutV, Walk)>> = match arg_of(args, "notempty"@) {
            Some(a) => match found {
                FoundV::Tok => if i2 < c.toks.len() {
                    Some(Ok(w2))
                } else {
                    None
                },
                FoundV::Node(nd) => match vfind(nd.nodes, a) {
                    Some(j) => match nd.nodes[j].1 {
                        PartV::Array(items) => if items.len() == 0 {
                            if l1.node_idx < 1 || !(i2 < c.toks.len()) {
                                None
                            } else {
                                Some(Err((Err((one_of_err(c, sc, l1.node_idx, i2), h)), w2)))
                            }
                        } else {
                            Some(Ok(w2))
                        },
                        PartV::Value(_) => Some(Ok(w2)),
                    },
                    None => Some(Ok(w2)),
                },
            },
            None => match arg_of(args, "set"@) {
                Some(a) => set_all(c.toks, ws_words(a), found, kind, w2),
                None => Some(Ok(w2)),
            },
        };
        match r3 {
            None => None,
            Some(Err((o, w3))) => Some(Flow::Ret(o, w3)),
            Some(Ok(w3)) => check_tail(c, sc, args, kind, l1, w3),
        }
    }
}

/// Whether a piece of a pass ends with errors marked hard: the flag of its
/// walk, and of the error it returns, if any, is `hard`.
pub open spec fn flow_hard_is(f: Flow, hard: bool) -> bool {
    match f {
        Flow::Go(_, w) => w.hard == hard,
        Flow::Break(_, w) => w.hard == hard,
        Flow::Ret(o, w) => w.hard == hard && (o matches Err((_, h)) ==> h == hard),
    }
}

/// Recording what was found keeps whether errors are hard, and an error it
/// gives carries that flag.
proof fn lemma_set_all_hard(toks: Seq<TokenView>, words: Seq<Seq<char>>, found: FoundV, expected: TokenView, w: Walk)
    ensures
        set_all(toks, words, found, expected, w) matches Some(Ok(w2)) ==> w2.hard == w.hard,
        set_all(toks, words, found, expected, w) matches Some(Err((o, w2))) ==> w2.hard == w.hard && (o matches Err(
            (_, h),
        ) ==> h == w.hard),
    decreases words.len(),
{
    if words.len() > 0 {
        let wd = words[0];
        let rest = words.subrange(1, words.len() as int);
        match vfind(w.data, wd) {
            Some(i) => match item_of(toks, found, expected, w.idx) {
                None => {},
                Some(item) => {
                    lemma_set_all_hard(
                        toks,
                        rest,
                        found,
                        expected,
                        Walk {
                            idx: w.idx,
                            data: w.data.update(i, (w.data[i].0, set_v(item, w.data[i].1))),
                            hard: w.hard,
                            globals: w.globals,
                            fuel: w.fuel,
                        },
                    );
                },
            },
            None => match vfind(w.globals, wd) {
                Some(i) => match item_of(toks, found, expected, w.idx) {
                    None => {},
                    Some(item) => {
                        lemma_set_all_hard(
                            toks,
                            rest,
                            found,
                            expected,
                            Walk {
                                idx: w.idx,
                                data: w.data,
                                hard: w.hard,
                                globals: w.globals.update(i, (w.globals[i].0, set_v(item, w.globals[i].1))),
                                fuel: w.fuel,
                            },
                        );
                    },
                },
                None => {},
            },
        }
    }
}

/// A node that matched with the argument `harderr` makes the errors of the
/// walk hard exactly when the argument is `true`, and soft for any other
/// value: the walk after the node, and any error the node gives, carry that
/// flag.  So a node that fails after a `harderr="true"` node fails hard, and
/// an optional head around it is not passed over.
pub proof fn law_harderr(
    c: Ctx,
    sc: Scope,
    args: Seq<(String, String)>,
    kind: TokenView,
    found: FoundV,
    l: Loc,
    w: Walk,
    a: Seq<char>,
)
    requires
        arg_of(args, "harderr"@) == Some(a),
    ensures
        check_spec(c, sc, args, kind, found, l, w) matches Some(f) ==> flow_hard_is(
            f,
            a == seq!['t', 'r', 'u', 'e'],
        ),
{
    reveal_strlit("true");
    assert("true"@ =~= seq!['t', 'r', 'u', 'e']);
    let h = a == seq!['t', 'r', 'u', 'e'];
    let i1 = match arg_of(args, "advance"@) {
        Some(x) => w.idx + match parse_uint(x) {
            Some(n) => n as int,
            None => 1int,
        },
        None => w.idx,
    };
    let i2 = match arg_of(args, "#advance"@) {
        Some(x) => i1 - match parse_uint(x) {
            Some(n) => n as int,
            None => 1int,
        },
        None => i1,
    };
    let w2 = Walk { idx: i2, data: w.data, hard: h, globals: w.globals, fuel: w.fuel };
    if arg_of(args, "notempty"@) is None {
        if let Some(x) = arg_of(args, "set"@) {
            lemma_set_all_hard(c.toks, ws_words(x), found, kind, w2);
        }
    }
}

/// Passing the node and the token, as the loop marks them.
pub open spec fn advance_spec(l: Loc, w: Walk) -> Option<Flow> {
    let n2 = if l.adv_node {
        l.node_idx + 1
    } else {
        l.node_idx
    };
    let i2 = if l.adv_tok {
        w.idx + 1
    } else {
        w.idx
    };
    if i2 > usize::MAX {
        None
    } else {
        Some(Flow::Go(loc(n2, l.adv_tok, l.adv_node), at(w, i2)))
    }
}

/// Going back `num` nodes as an inner scope asks: within this scope, or
/// handing the rest of the way back to the scope around it.
pub open spec fn back_spec(num: nat, act: ReturnActions, l: Loc, w: Walk) -> Option<Flow> {
    if num <= l.node_idx {
        Some(
            Flow::Go(
                loc(
                    l.node_idx - num,
                    l.adv_tok,
                    if act == ReturnActions::Freeze {
                        false
                    } else {
                        l.adv_node
                    },
                ),
                w,
            ),
        )
    } else if w.idx + 1 > usize::MAX {
        None
    } else {
        Some(Flow::Ret(Ok(Some(((num - l.node_idx - 1) as nat, act))), at(w, w.idx + 1)))
    }
}

/// The command `notempty`: the first of the named parts of the node being
/// built that is an empty list makes the error hard and fails.
pub open spec fn notempty_cmd(c: Ctx, sc: Scope, node_idx: int, kind: TokenView, parts: Seq<Seq<char>>, w: Walk) -> Option<
    Option<(OutV, Walk)>,
>
    decreases parts.len(),
{
    if parts.len() == 0 {
        Some(None)
    } else {
        let rest = notempty_cmd(c, sc, node_idx, kind, parts.subrange(1, parts.len() as int), w);
        match vfind(w.data, parts[0]) {
            Some(j) => match w.data[j].1 {
                PartV::Array(items) => if items.len() == 0 {
                    let w2 = Walk { idx: w.idx, data: w.data, hard: true, globals: w.globals, fuel: w.fuel };
                    match kind_err(c, sc, node_idx, kind, w2) {
                        None => None,
                        Some(o) => Some(Some((o, w2))),
                    }
                } else {
                    rest
                },
                PartV::Value(_) => rest,
            },
            None => rest,
        }
    }
}

/// Whether every argument that a condition names has that value among the
/// arguments of the scope.
pub open spec fn all_match(params: Seq<(String, String)>, cond: Seq<(String, String)>) -> bool {
    forall|i: int| 0 <= i < cond.len() ==> arg_of(params, (#[trigger] cond[i]).0@) == Some(cond[i].1@)
}

/// The end of a scope once its loop is over: the token that ends it must be
/// the last one read.
pub open spec fn post_spec(c: Ctx, sc: Scope, adv_tok: bool, w: Walk) -> Option<(OutV, Walk)> {
    let advnc: int = if adv_tok {
        1
    } else {
        0
    };
    match sc.endwith {
        Some(t) => if c.toks.len() > w.idx {
            if w.idx - advnc < 0 {
                None
            } else if c.toks[w.idx - advnc] == t {
                if w.idx + 1 > usize::MAX {
                    None
                } else {
                    Some((Ok(Some((0nat, ReturnActions::Chain))), at(w, w.idx + 1)))
                }
            } else {
                Some((Err((ErrV::WrongEndingToken(t, c.toks[w.idx]), w.hard)), w))
            }
        } else {
            None
        },
        None => match sc.endon {
            Some(t) => if c.toks.len() > w.idx {
                if w.idx - advnc < 0 {
                    None
                } else if c.toks[w.idx - advnc] == t {
                    Some((Ok(Some((0nat, ReturnActions::Chain))), w))
                } else {
                    Some((Err((ErrV::WrongEndingToken(t, c.toks[w.idx]), w.hard)), w))
                }
            } else {
                None
            },
            None => Some((Ok(Some((0nat, ReturnActions::Advance))), w)),
        },
    }
}

/// The heads of the grammar by name, for looking one up.
pub open spec fn head_names(syn: Seq<(String, Head)>) -> Seq<(Seq<char>, Head)> {
    syn.map_values(|e: (String, Head)| (e.0@, e.1))
}

/// Reading the head named `id` at place `idx`: the node built (named `id`,
/// with the parts its head declares) or the error, with the place, the
/// global parts and the steps left after it; nothing where the grammar has
/// no such head or the walk would fail.  Opening the head takes one step.
pub open spec fn node_spec(
    c: Ctx,
    params: Seq<(String, String)>,
    id: Seq<char>,
    idx: int,
    globals: Seq<(Seq<char>, PartV)>,
    fuel: nat,
) -> Option<(Result<NodeV, (ErrV, bool)>, int, Seq<(Seq<char>, PartV)>, nat)>
    decreases fuel, 2int,
{
    if fuel == 0 {
        Some((Err((ErrV::StepLimit, true)), idx, globals, fuel))
    } else {
        match vfind(head_names(c.syn), id) {
            None => None,
            Some(i) => {
                let head = c.syn[i].1;
                let inner = Walk {
                    idx,
                    data: fresh_v(head.parameters@),
                    hard: false,
                    globals,
                    fuel: (fuel - 1) as nat,
                };
                match scope_spec(c, params, head.nodes@, inner) {
                    None => None,
                    Some((o, w2)) => match o {
                        Ok(_) => Some(
                            (
                                Ok(NodeV { name: TokenView::Text(id), data: None, nodes: w2.data }),
                                w2.idx,
                                w2.globals,
                                w2.fuel,
                            ),
                        ),
                        Err(e) => Some((Err(e), w2.idx, w2.globals, w2.fuel)),
                    },
                }
            },
        }
    }
}

/// Entering the nodes `sub` of a node, and doing what the inner scope asks.
pub open spec fn scope_enter_spec(c: Ctx, sc: Scope, sub: Seq<NodeType>, l: Loc, w: Walk) -> Option<Flow>
    decreases w.fuel, 3int,
{
    match scope_spec(c, sc.params, sub, w) {
        None => None,
        Some((o, w2)) => match o {
            Ok(Some((n, act))) => match act {
                ReturnActions::Chain => Some(Flow::Ret(Ok(Some((n, ReturnActions::Chain))), w2)),
                ReturnActions::Advance => Some(Flow::Go(loc(l.node_idx, false, l.adv_node), w2)),
                _ => back_spec(n, act, l, w2),
            },
            Ok(None) => Some(Flow::Go(l, w2)),
            Err(e) => Some(Flow::Ret(Err(e), w2)),
        },
    }
}

/// A node that names another head: the head is read, then the node's own
/// nodes are entered and its arguments read; where the head fails, an
/// optional node is passed unless the error is hard.
pub open spec fn open_struct_spec(
    c: Ctx,
    sc: Scope,
    node: crate::grammar::Node,
    id: Seq<char>,
    recoverable: bool,
    l: Loc,
    w: Walk,
) -> Option<Flow>
    decreases w.fuel, 4int,
{
    match node_spec(c, node.arguments@, id, w.idx, w.globals, w.fuel) {
        None => None,
        Some((res, i2, g2, f2)) => {
        let w2 = Walk { idx: i2, data: w.data, hard: w.hard, globals: g2, fuel: f2 };
        match res {
            Ok(nd) => if !(w2.fuel <= w.fuel) {
                None
            } else {
                match scope_enter_spec(c, sc, node.nodes@, l, w2) {
                    None => None,
                    Some(Flow::Go(l2, w3)) => match check_spec(
                        c,
                        sc,
                        node.arguments@,
                        node.kind@,
                        FoundV::Node(nd),
                        l2,
                        w3,
                    ) {
                        None => None,
                        Some(Flow::Go(l3, w4)) => advance_spec(loc(l3.node_idx, false, l3.adv_node), w4),
                        Some(other) => Some(other),
                    },
                    Some(other) => Some(other),
                }
            },
            Err((e, h)) => if e is FileEndPeaceful {
                Some(Flow::Ret(Err((ErrV::FileEndPeaceful, false)), w2))
            } else if h || !recoverable {
                Some(Flow::Ret(Err((e, w2.hard)), w2))
            } else {
                advance_spec(loc(l.node_idx, false, true), at(w2, w.idx))
            },
        }
        },
    }
}

/// One pass of the loop of a scope at node `node_idx`.
pub open spec fn iter_spec(c: Ctx, sc: Scope, node_idx: int, w: Walk) -> Option<Flow>
    decreases w.fuel, 5int,
{
    let l0 = loc(node_idx, true, true);
    if !(0 <= node_idx < sc.nodes.len()) || w.idx < 0 {
        None
    } else if w.idx >= c.toks.len() {
        if crate::tree_walker::run_end(sc.nodes, node_idx) == sc.nodes.len() {
            Some(Flow::Ret(Ok(Some((0nat, ReturnActions::Advance))), w))
        } else if node_idx >= sc.nodes.len() - 1 {
            Some(Flow::Ret(Err((ErrV::FileEndPeaceful, true)), w))
        } else {
            Some(Flow::Ret(Err((ErrV::FileEnd, w.hard)), w))
        }
    } else if sc.endon is Some && c.toks[w.idx] == sc.endon->0 {
        Some(Flow::Ret(Ok(Some((0nat, ReturnActions::Chain))), w))
    } else if sc.endwith is Some && c.toks[w.idx] == sc.endwith->0 {
        if w.idx + 1 > usize::MAX {
            None
        } else {
            Some(Flow::Ret(Ok(Some((0nat, ReturnActions::Chain))), at(w, w.idx + 1)))
        }
    } else {
        match sc.nodes[node_idx] {
            NodeType::Expect(node) => if node.kind@ is Text {
                open_struct_spec(c, sc, node, node.kind@->Text_0, false, l0, w)
            } else if token_matches(node.kind@, c.toks[w.idx]) {
                match check_spec(c, sc, node.arguments@, node.kind@, FoundV::Tok, l0, w) {
                    Some(Flow::Go(l, w2)) => advance_spec(l, w2),
                    other => other,
                }
            } else {
                match kind_err(c, sc, node_idx, node.kind@, w) {
                    None => None,
                    Some(o) => Some(Flow::Ret(o, w)),
                }
            },
            NodeType::Maybe(node) => if node.kind@ is Text {
                open_struct_spec(c, sc, node, node.kind@->Text_0, true, l0, w)
            } else if token_matches(node.kind@, c.toks[w.idx]) {
                match check_spec(c, sc, node.arguments@, node.kind@, FoundV::Tok, l0, w) {
                    Some(Flow::Go(l, w2)) => match advance_spec(l, w2) {
                        Some(Flow::Go(l3, w3)) => if w3.fuel <= w.fuel {
                            scope_enter_spec(c, sc, node.nodes@, l3, w3)
                        } else {
                            None
                        },
                        other => other,
                    },
                    other => other,
                }
            } else {
                advance_spec(loc(node_idx, false, true), w)
            },
            NodeType::Command(node) => if node.kind@ == TokenView::Text("end"@) {
                Some(Flow::Ret(Ok(Some((0nat, ReturnActions::Chain))), w))
            } else if node.kind@ == TokenView::Text("notempty"@) {
                match arg_of(node.arguments@, "nodes"@) {
                    None => None,
                    Some(a) => match notempty_cmd(c, sc, node_idx, node.kind@, space_parts(a), w) {
                        None => None,
                        Some(Some((o, w2))) => Some(Flow::Ret(o, w2)),
                        Some(None) => advance_spec(loc(node_idx, false, true), w),
                    },
                }
            } else {
                advance_spec(loc(node_idx, false, true), w)
            },
            NodeType::ArgsCondition(con) => if w.idx == 0 {
                None
            } else {
                let w1 = at(w, w.idx - 1);
                if all_match(sc.params, con.params@) {
                    match advance_spec(loc(node_idx, false, true), w1) {
                        Some(Flow::Go(l2, w2)) => if w2.fuel <= w.fuel {
                            match scope_enter_spec(c, sc, con.nodes@, l2, w2) {
                                Some(Flow::Go(l3, w3)) => advance_spec(loc(l3.node_idx, false, false), w3),
                                other => other,
                            }
                        } else {
                            None
                        },
                        other => other,
                    }
                } else {
                    Some(Flow::Go(l0, w1))
                }
            },
        }
    }
}

/// The loop of a scope from node `node_idx` on; each pass takes one step.
pub open spec fn loop_spec(c: Ctx, sc: Scope, node_idx: int, adv_tok: bool, w: Walk) -> Option<(OutV, Walk)>
    decreases w.fuel, 1int,
{
    if !(0 <= node_idx < sc.nodes.len()) {
        post_spec(c, sc, adv_tok, w)
    } else if w.fuel == 0 {
        Some((Err((ErrV::StepLimit, true)), w))
    } else {
        let w1 = Walk { idx: w.idx, data: w.data, hard: w.hard, globals: w.globals, fuel: (w.fuel - 1) as nat };
        match iter_spec(c, sc, node_idx, w1) {
            None => None,
            Some(Flow::Go(l, w2)) => if w2.fuel <= w1.fuel {
                loop_spec(c, sc, l.node_idx, l.adv_tok, w2)
            } else {
                None
            },
            Some(Flow::Break(l, w2)) => post_spec(c, sc, l.adv_tok, w2),
            Some(Flow::Ret(o, w2)) => Some((o, w2)),
        }
    }
}

/// Walking the nodes of a scope under these arguments: what the scope
/// returns and the walk after it; nothing where the walk would fail.
pub open spec fn scope_spec(c: Ctx, params: Seq<(String, String)>, nodes: Seq<NodeType>, w: Walk) -> Option<
    (OutV, Walk),
>
    decreases w.fuel, 2int,
{
    loop_spec(c, scope_of(params, nodes), 0, false, w)
}

/// The walk that the exec state stands for.
pub open spec fn walk_v(
    idx: usize,
    data: Seq<(String, ArgNodeType)>,
    hard: bool,
    globals: Seq<(String, ArgNodeType)>,
    fuel: usize,
) -> Walk {
    Walk { idx: idx as int, data: parts_v(data), hard, globals: parts_v(globals), fuel: fuel as nat }
}

/// What the walk reads, from the tokens and the grammar.
pub open spec fn ctx_v(tokens: Seq<Tokens>, syntax: Seq<(String, Head)>) -> Ctx {
    Ctx { toks: views(tokens), syn: syntax }
}

/// What was found, as a value: the token at the place, or a built node.
pub open spec fn found_v(found: Option<&Node>) -> FoundV {
    match found {
        Some(n) => FoundV::Node(node_v(*n)),
        None => FoundV::Tok,
    }
}

/// How a piece of a pass ends, in exec code.
pub enum Step {
    Go,
    Break,
    Ret(Result<Option<(usize, ReturnActions)>, (ParseError, bool)>),
}

/// The flow that a step stands for, with the loop's place and the walk after it.
pub open spec fn step_v(s: Step, l: Loc, w: Walk) -> Flow {
    match s {
        Step::Go => Flow::Go(l, w),
        Step::Break => Flow::Break(l, w),
        Step::Ret(o) => Flow::Ret(out_v(o), w),
    }
}

/// Where the walk takes the `i`-th place among the found place and keys of
/// `m`: the first entry named `k`.
fn find_entry(m: &Vec<(String, ArgNodeType)>, k: &str) -> (r: Option<usize>)
    ensures
        match r {
            Some(i) => vfind(parts_v(m@), k@) == Some(i as int) && i < m@.len(),
            None => vfind(parts_v(m@), k@) is None,
        },
{
    let r = find_key(m, k);
    proof {
        lemma_parts_v(m@);
        lemma_vfind(parts_v(m@), k@);
        match vfind(parts_v(m@), k@) {
            Some(j) => {
                match r {
                    Some(i) => {
                        if j < i {
                            assert(m@[j].0@ != k@);
                        } else if i < j {
                            assert(parts_v(m@)[i as int].0 == k@);
                        }
                    },
                    None => {
                        assert(key_at(m@, k@, j));
                    },
                }
            },
            None => {
                if let Some(i) = r {
                    assert(parts_v(m@)[i as int].0 == k@);
                }
            },
        }
    }
    r
}

/// The node recorded of what was found, where the grammar expected `expected`.
fn item_node(tokens: &Vec<Tokens>, found: Option<&Node>, expected: &Tokens, idx: usize) -> (r: Node)
    requires
        item_of(views(tokens@), found_v(found), expected@, idx as int) is Some,
    ensures
        item_of(views(tokens@), found_v(found), expected@, idx as int) == Some(node_v(r)),
{
    match found {
        Some(n) => copy_node(n),
        None => {
            let r = crate::tree_walker::construct_token(&tokens[idx], expected);
            proof {
                assert(node_v(r).nodes =~= Seq::<(Seq<char>, PartV)>::empty());
            }
            r
        },
    }
}

/// Records `item` in a part.
fn set_part(place: &mut ArgNodeType, item: Node)
    ensures
        part_v(*final(place)) == set_v(node_v(item), part_v(*old(place))),
{
    match place {
        ArgNodeType::Array(arr) => {
            let ghost before = arr@;
            arr.push(item);
            assert(arr@.subrange(0, arr@.len() - 1) =~= before);
        },
        ArgNodeType::Value(val) => {
            *val = item;
        },
    }
}

/// Records `item` in entry `i` of the parts.
fn set_entry(m: &mut Vec<(String, ArgNodeType)>, i: usize, item: Node)
    requires
        i < old(m)@.len(),
    ensures
        parts_v(final(m)@) == parts_v(old(m)@).update(
            i as int,
            (parts_v(old(m)@)[i as int].0, set_v(node_v(item), parts_v(old(m)@)[i as int].1)),
        ),
{
    proof {
        lemma_parts_v(m@);
    }
    let ghost before = m@;
    let e = &mut m[i];
    set_part(&mut e.1, item);
    proof {
        lemma_parts_v(m@);
        lemma_parts_v_eq(
            m@,
            parts_v(before).update(
                i as int,
                (parts_v(before)[i as int].0, set_v(node_v(item), parts_v(before)[i as int].1)),
            ),
        );
    }
}

/// Records what was found in the parts named by `words`.
fn set_all_exec(
    tokens: &Vec<Tokens>,
    words: &Vec<String>,
    found: Option<&Node>,
    kind: &Tokens,
    idx: usize,
    data: &mut Vec<(String, ArgNodeType)>,
    harderr: bool,
    globals: &mut Vec<(String, ArgNodeType)>,
    fuel: usize,
) -> (r: Option<ParseError>)
    requires
        set_all(
            views(tokens@),
            strs_v(words@),
            found_v(found),
            kind@,
            walk_v(idx, old(data)@, harderr, old(globals)@, fuel),
        ) is Some,
    ensures
        set_all(
            views(tokens@),
            strs_v(words@),
            found_v(found),
            kind@,
            walk_v(idx, old(data)@, harderr, old(globals)@, fuel),
        ) == match r {
            None => Some(Ok(walk_v(idx, final(data)@, harderr, final(globals)@, fuel))),
            Some(e) => Some(
                Err((Err::<Option<(nat, ReturnActions)>, (ErrV, bool)>((err_v(e), harderr)), walk_v(idx, final(data)@, harderr, final(globals)@, fuel))),
            ),
        },
{
    let ghost c = views(tokens@);
    let ghost ws = strs_v(words@);
    let ghost w0 = walk_v(idx, data@, harderr, globals@, fuel);
    let mut i: usize = 0;
    assert(ws.subrange(0, ws.len() as int) =~= ws);
    while i < words.len()
        invariant
            i <= words@.len(),
            ws == strs_v(words@),
            c == views(tokens@),
            w0 == walk_v(idx, old(data)@, harderr, old(globals)@, fuel),
            set_all(c, ws, found_v(found), kind@, w0) is Some,
            set_all(c, ws, found_v(found), kind@, w0) == set_all(
                c,
                ws.subrange(i as int, ws.len() as int),
                found_v(found),
                kind@,
                walk_v(idx, data@, harderr, globals@, fuel),
            ),
        decreases words@.len() - i,
    {
        let ghost w = walk_v(idx, data@, harderr, globals@, fuel);
        let ghost rest = ws.subrange(i as int, ws.len() as int);
        assert(rest[0] == words@[i as int]@);
        assert(rest.subrange(1, rest.len() as int) =~= ws.subrange(i + 1, ws.len() as int));
        let word = words[i].as_str();
        assert(set_all(c, rest, found_v(found), kind@, w) is Some);
        match find_entry(data, word) {
            Some(j) => {
                assert(vfind(w.data, rest[0]) == Some(j as int));
                assert(item_of(c, found_v(found), kind@, idx as int) is Some);
                let item = item_node(tokens, found, kind, idx);
                set_entry(data, j, item);
            },
            None => match find_entry(globals, word) {
                Some(j) => {
                    assert(vfind(w.data, rest[0]) is None);
                    assert(vfind(w.globals, rest[0]) == Some(j as int));
                    assert(item_of(c, found_v(found), kind@, idx as int) is Some);
                    let item = item_node(tokens, found, kind, idx);
                    set_entry(globals, j, item);
                },
                None => {
                    let e = ParseError::EmptyNodeParameter(words[i].clone());
                    assert(vfind(w.data, rest[0]) is None);
                    assert(vfind(w.globals, rest[0]) is None);
                    assert(err_v(e) == ErrV::EmptyNodeParameter(rest[0]));
                    return Some(e);
                },
            },
        }
        i = i + 1;
    }
    assert(ws.subrange(i as int, ws.len() as int) =~= Seq::<Seq<char>>::empty());
    None
}

/// The error when node `node_idx` does not match the token at `idx`.
fn kind_error(tokens: &Vec<Tokens>, nodes: &Vec<NodeType>, node_idx: usize, kind: &Tokens, idx: usize) -> (r: ParseError)
    requires
        idx < tokens@.len(),
        node_idx < nodes@.len(),
    ensures
        node_idx == 0 ==> err_v(r) == ErrV::Expected(kind@, views(tokens@)[idx as int]),
        node_idx > 0 ==> err_v(r) == one_of_err(
            ctx_v(tokens@, seq![]),
            scope_of(seq![], nodes@),
            node_idx as int,
            idx as int,
        ),
{
    if node_idx == 0 {
        ParseError::Expected(kind.copy(), tokens[idx].copy())
    } else {
        one_of_error(tokens, nodes, node_idx, idx)
    }
}

/// The error that lists the tokens the nodes around `node_idx` look for.
fn one_of_error(tokens: &Vec<Tokens>, nodes: &Vec<NodeType>, node_idx: usize, idx: usize) -> (r: ParseError)
    requires
        idx < tokens@.len(),
        0 < node_idx < nodes@.len(),
    ensures
        err_v(r) == one_of_err(ctx_v(tokens@, seq![]), scope_of(seq![], nodes@), node_idx as int, idx as int),
{
    let a = crate::tree_walker::maybes_start(nodes, node_idx - 1);
    let b = crate::tree_walker::maybes_end(nodes, node_idx);
    let list = crate::tree_walker::extract_tokens_range(nodes, (a, b));
    if a >= b {
        assert(views(list@) =~= Seq::<TokenView>::empty());
    }
    ParseError::ExpectedOneOf(list, tokens[idx].copy())
}

/// The one-of error depends on the tokens and the nodes alone.
proof fn lemma_one_of_err(c: Ctx, c2: Ctx, sc: Scope, sc2: Scope, node_idx: int, i: int)
    requires
        c.toks == c2.toks,
        sc.nodes == sc2.nodes,
    ensures
        one_of_err(c, sc, node_idx, i) == one_of_err(c2, sc2, node_idx, i),
{
}

/// Passing the node and the token as marked.
fn advance_exec(node_idx: &mut usize, adv_tok: bool, adv_node: bool, idx: &mut usize)
    requires
        adv_tok ==> *old(idx) < usize::MAX,
        adv_node ==> *old(node_idx) < usize::MAX,
    ensures
        *final(node_idx) == if adv_node {
            *old(node_idx) + 1
        } else {
            *old(node_idx) as int
        },
        *final(idx) == if adv_tok {
            *old(idx) + 1
        } else {
            *old(idx) as int
        },
{
    if adv_node {
        *node_idx = *node_idx + 1;
    }
    if adv_tok {
        *idx = *idx + 1;
    }
}

/// Reads the arguments of a node that matched, as `check_spec` says.
#[verifier::rlimit(60)]
fn check_exec(
    tokens: &Vec<Tokens>,
    syntax: &Tree,
    params: &NodeParameters,
    nodes: &Vec<NodeType>,
    args: &NodeParameters,
    kind: &Tokens,
    found: Option<&Node>,
    node_idx: &mut usize,
    adv_tok: &mut bool,
    adv_node: &mut bool,
    idx: &mut usize,
    data: &mut Vec<(String, ArgNodeType)>,
    harderr: &mut bool,
    globals: &mut Vec<(String, ArgNodeType)>,
    fuel: usize,
) -> (r: Step)
    requires
        *old(node_idx) < nodes@.len(),
        check_spec(
            ctx_v(tokens@, syntax@),
            scope_of(params@, nodes@),
            args@,
            kind@,
            found_v(found),
            loc(*old(node_idx) as int, *old(adv_tok), *old(adv_node)),
            walk_v(*old(idx), old(data)@, *old(harderr), old(globals)@, fuel),
        ) is Some,
    ensures
        check_spec(
            ctx_v(tokens@, syntax@),
            scope_of(params@, nodes@),
            args@,
            kind@,
            found_v(found),
            loc(*old(node_idx) as int, *old(adv_tok), *old(adv_node)),
            walk_v(*old(idx), old(data)@, *old(harderr), old(globals)@, fuel),
        ) == Some(
            step_v(
                r,
                loc(*final(node_idx) as int, *final(adv_tok), *final(adv_node)),
                walk_v(*final(idx), final(data)@, *final(harderr), final(globals)@, fuel),
            ),
        ),
        *final(node_idx) < nodes@.len(),
{
    let ghost c = ctx_v(tokens@, syntax@);
    let ghost sc = scope_of(params@, nodes@);
    let n_tok = tokens.len();
    assert(c.toks.len() == n_tok);
    if get_arg(args, "peek").is_some() {
        *adv_tok = false;
    }
    if let Some(a) = get_arg(args, "advance") {
        let n = match parse_uint_exec(a.as_str()) {
            Some(n) => n,
            None => 1,
        };
        *idx = *idx + n;
    }
    if let Some(a) = get_arg(args, "#advance") {
        let n = match parse_uint_exec(a.as_str()) {
            Some(n) => n,
            None => 1,
        };
        *idx = *idx - n;
    }
    if let Some(a) = get_arg(args, "harderr") {
        *harderr = text_eq(a.as_str(), "true");
    }
    let ghost w2 = walk_v(*idx, data@, *harderr, globals@, fuel);
    match get_arg(args, "notempty") {
        Some(a) => match found {
            None => {},
            Some(nd) => match find_entry(&nd.nodes, a.as_str()) {
                Some(j) => {
                    proof {
                        lemma_parts_v(nd.nodes@);
                    }
                    match &nd.nodes[j].1 {
                        ArgNodeType::Array(items) => {
                            proof {
                                lemma_nodes_v(items@);
                            }
                            if items.len() == 0 {
                                let e = one_of_error(tokens, nodes, *node_idx, *idx);
                                proof {
                                    lemma_one_of_err(
                                        ctx_v(tokens@, seq![]),
                                        c,
                                        scope_of(seq![], nodes@),
                                        sc,
                                        *node_idx as int,
                                        *idx as int,
                                    );
                                }
                                return Step::Ret(Err((e, *harderr)));
                            }
                        },
                        ArgNodeType::Value(_) => {},
                    }
                },
                None => {},
            },
        },
        None => match get_arg(args, "set") {
            Some(a) => {
                let words = split_words(a.as_str());
                match set_all_exec(tokens, &words, found, kind, *idx, data, *harderr, globals, fuel) {
                    Some(e) => {
                        return Step::Ret(Err((e, *harderr)));
                    },
                    None => {},
                }
            },
            None => {},
        },
    }
    if let Some(a) = get_arg(args, "back") {
        let num = parse_uint_exec(a.as_str()).unwrap();
        if num <= *node_idx {
            *adv_node = false;
            *node_idx = *node_idx - num;
        } else {
            *idx = *idx + 1;
            return Step::Ret(Ok(Some((num - *node_idx - 1, ReturnActions::Freeze))));
        }
    }
    if let Some(a) = get_arg(args, "end") {
        if text_eq(a.as_str(), "true") {
            *idx = *idx + 1;
        }
        return Step::Break;
    }
    if let Some(a) = get_arg(args, "pass") {
        return Step::Ret(Err((ParseError::Pass(a.clone()), *harderr)));
    }
    if let Some(a) = get_arg(args, "err") {
        if a.as_str().unicode_len() > 0 {
            return Step::Ret(Err((ParseError::Msg(a.clone()), *harderr)));
        }
        let e = kind_error(tokens, nodes, *node_idx, kind, *idx);
        proof {
            if *node_idx > 0 {
                lemma_one_of_err(
                    ctx_v(tokens@, seq![]),
                    c,
                    scope_of(seq![], nodes@),
                    sc,
                    *node_idx as int,
                    *idx as int,
                );
            }
        }
        return Step::Ret(Err((e, *harderr)));
    }
    Step::Go
}

/// The value of an optional token.
pub open spec fn opt_tok(o: Option<Tokens>) -> Option<TokenView> {
    match o {
        Some(t) => Some(t@),
        None => None,
    }
}

/// The token that the argument `name` of a scope names, parsed.
fn end_token(params: &NodeParameters, name: &str) -> (r: Option<Tokens>)
    ensures
        opt_tok(r) == match arg_of(params@, name@) {
            Some(a) => Some(parse_token_spec(a)),
            None => None,
        },
{
    match get_arg(params, name) {
        Some(a) => Some(parse_token(a.as_str())),
        None => None,
    }
}

/// Whether every argument that a condition names has that value among the
/// arguments of the scope.
fn all_match_exec(params: &NodeParameters, cond: &NodeParameters) -> (r: bool)
    ensures
        r == all_match(params@, cond@),
{
    let mut i: usize = 0;
    while i < cond.len()
        invariant
            i <= cond@.len(),
            forall|k: int| 0 <= k < i ==> arg_of(params@, (#[trigger] cond@[k]).0@) == Some(cond@[k].1@),
        decreases cond@.len() - i,
    {
        match get_arg(params, cond[i].0.as_str()) {
            Some(p) => {
                if !text_eq(p.as_str(), cond[i].1.as_str()) {
                    return false;
                }
            },
            None => {
                return false;
            },
        }
        i = i + 1;
    }
    true
}

/// The end of a scope once its loop is over.
fn post_exec(
    tokens: &Vec<Tokens>,
    endon: &Option<Tokens>,
    endwith: &Option<Tokens>,
    adv_tok: bool,
    idx: &mut usize,
    harderr: bool,
) -> (r: Result<Option<(usize, ReturnActions)>, (ParseError, bool)>)
    requires
        post_spec(
            ctx_v(tokens@, seq![]),
            Scope { params: seq![], nodes: seq![], endon: opt_tok(*endon), endwith: opt_tok(*endwith) },
            adv_tok,
            Walk { idx: *old(idx) as int, data: seq![], hard: harderr, globals: seq![], fuel: 0 },
        ) is Some,
    ensures
        post_spec(
            ctx_v(tokens@, seq![]),
            Scope { params: seq![], nodes: seq![], endon: opt_tok(*endon), endwith: opt_tok(*endwith) },
            adv_tok,
            Walk { idx: *old(idx) as int, data: seq![], hard: harderr, globals: seq![], fuel: 0 },
        ) == Some(
            (
                out_v(r),
                Walk { idx: *final(idx) as int, data: seq![], hard: harderr, globals: seq![], fuel: 0 },
            ),
        ),
{
    let n = tokens.len();
    let advnc: usize = if adv_tok {
        1
    } else {
        0
    };
    match endwith {
        Some(t) => {
            if n > *idx && token_eq(&tokens[*idx - advnc], t) {
                *idx = *idx + 1;
                Ok(Some((0, ReturnActions::Chain)))
            } else {
                Err((ParseError::WrongEndingToken(t.copy(), tokens[*idx].copy()), harderr))
            }
        },
        None => match endon {
            Some(t) => {
                if n > *idx && token_eq(&tokens[*idx - advnc], t) {
                    Ok(Some((0, ReturnActions::Chain)))
                } else {
                    Err((ParseError::WrongEndingToken(t.copy(), tokens[*idx].copy()), harderr))
                }
            },
            None => Ok(Some((0, ReturnActions::Advance))),
        },
    }
}

/// `post_spec` reads only the tokens, the ending tokens, the place and
/// whether errors are hard.
proof fn lemma_post(c: Ctx, c2: Ctx, sc: Scope, sc2: Scope, adv: bool, w: Walk, w2: Walk)
    requires
        c.toks == c2.toks,
        sc.endon == sc2.endon,
        sc.endwith == sc2.endwith,
        w.idx == w2.idx,
        w.hard == w2.hard,
    ensures
        post_spec(c, sc, adv, w) is Some <==> post_spec(c2, sc2, adv, w2) is Some,
        post_spec(c, sc, adv, w) is Some ==> post_spec(c, sc, adv, w).unwrap().0 == post_spec(
            c2,
            sc2,
            adv,
            w2,
        ).unwrap().0 && post_spec(c, sc, adv, w).unwrap().1.idx == post_spec(c2, sc2, adv, w2).unwrap().1.idx
            && post_spec(c, sc, adv, w).unwrap().1.data == w.data && post_spec(c, sc, adv, w).unwrap().1.hard
            == w.hard && post_spec(c, sc, adv, w).unwrap().1.globals == w.globals && post_spec(
            c,
            sc,
            adv,
            w,
        ).unwrap().1.fuel == w.fuel,
{
}

/// Going back `num` nodes as an inner scope asks.
fn back_exec(
    num: usize,
    act: ReturnActions,
    adv_tok: bool,
    node_idx: &mut usize,
    adv_node: &mut bool,
    idx: &mut usize,
    w: Ghost<Walk>,
) -> (r: Step)
    requires
        w@.idx == *old(idx),
        num > *old(node_idx) ==> *old(idx) < usize::MAX,
    ensures
        back_spec(num as nat, act, loc(*old(node_idx) as int, adv_tok, *old(adv_node)), w@) == Some(
            step_v(r, loc(*final(node_idx) as int, adv_tok, *final(adv_node)), at(w@, *final(idx) as int)),
        ),
        *final(node_idx) <= *old(node_idx),
{
    if num <= *node_idx {
        if act == ReturnActions::Freeze {
            *adv_node = false;
        }
        *node_idx = *node_idx - num;
        assert(at(w@, *idx as int) == w@);
        Step::Go
    } else {
        *idx = *idx + 1;
        Step::Ret(Ok(Some((num - *node_idx - 1, act))))
    }
}

/// Entering the nodes `sub` of a node, and doing what the inner scope asks.
#[verifier::rlimit(60)]
fn scope_enter_exec(
    tokens: &Vec<Tokens>,
    syntax: &Tree,
    params: &NodeParameters,
    nodes: &Vec<NodeType>,
    sub: &Vec<NodeType>,
    node_idx: &mut usize,
    adv_tok: &mut bool,
    adv_node: &mut bool,
    idx: &mut usize,
    data: &mut Vec<(String, ArgNodeType)>,
    harderr: &mut bool,
    globals: &mut Vec<(String, ArgNodeType)>,
    fuel: &mut usize,
) -> (r: Step)
    requires
        keys_unique(syntax@),
        scope_enter_spec(
            ctx_v(tokens@, syntax@),
            scope_of(params@, nodes@),
            sub@,
            loc(*old(node_idx) as int, *old(adv_tok), *old(adv_node)),
            walk_v(*old(idx), old(data)@, *old(harderr), old(globals)@, *old(fuel)),
        ) is Some,
    ensures
        scope_enter_spec(
            ctx_v(tokens@, syntax@),
            scope_of(params@, nodes@),
            sub@,
            loc(*old(node_idx) as int, *old(adv_tok), *old(adv_node)),
            walk_v(*old(idx), old(data)@, *old(harderr), old(globals)@, *old(fuel)),
        ) == Some(
            step_v(
                r,
                loc(*final(node_idx) as int, *final(adv_tok), *final(adv_node)),
                walk_v(*final(idx), final(data)@, *final(harderr), final(globals)@, *final(fuel)),
            ),
        ),
        *final(fuel) <= *old(fuel),
        *final(node_idx) <= *old(node_idx),
    decreases *old(fuel), 3int,
{
    let ghost l = loc(*node_idx as int, *adv_tok, *adv_node);
    let res = parse_scope(tokens, syntax, params, idx, sub, data, harderr, globals, fuel);
    let ghost w2 = walk_v(*idx, data@, *harderr, globals@, *fuel);
    match res {
        Ok(Some((n, act))) => match act {
            ReturnActions::Chain => Step::Ret(Ok(Some((n, ReturnActions::Chain)))),
            ReturnActions::Advance => {
                *adv_tok = false;
                Step::Go
            },
            _ => {
                if n > *node_idx {
                    assert(back_spec(n as nat, act, l, w2) is Some);
                }
                back_exec(n, act, *adv_tok, node_idx, adv_node, idx, Ghost(w2))
            },
        },
        Ok(None) => Step::Go,
        Err(e) => Step::Ret(Err(e)),
    }
}

/// `vfind` over the heads' names is where `find_key` finds the head.
proof fn lemma_find_head(syntax: Seq<(String, Head)>, id: Seq<char>, r: Option<usize>)
    requires
        r matches Some(i) ==> key_at(syntax, id, i as int) && forall|j: int|
            0 <= j < i ==> (#[trigger] syntax[j]).0@ != id,
        r is None ==> !has_key(syntax, id),
    ensures
        vfind(head_names(syntax), id) == match r {
            Some(i) => Some(i as int),
            None => None::<int>,
        },
{
    let hn = head_names(syntax);
    lemma_vfind(hn, id);
    assert(hn.len() == syntax.len());
    assert forall|j: int| 0 <= j < syntax.len() implies #[trigger] hn[j].0 == syntax[j].0@ by {}
    match vfind(hn, id) {
        Some(j) => {
            match r {
                Some(i) => {
                    if j < i {
                        assert(syntax[j].0@ != id);
                    } else if i < j {
                        assert(hn[i as int].0 == id);
                    }
                },
                None => {
                    assert(key_at(syntax, id, j));
                },
            }
        },
        None => {
            if let Some(i) = r {
                assert(hn[i as int].0 == id);
            }
        },
    }
}

/// Reads the head named `id` at `idx`: builds its node, or gives the error.
/// Opening the head takes one step of the budget.
pub fn parse_node(
    tokens: &Vec<Tokens>,
    syntax: &Tree,
    params: &NodeParameters,
    idx: &mut usize,
    id: &String,
    globals: &mut Vec<(String, ArgNodeType)>,
    fuel: &mut usize,
) -> (r: Result<Node, (ParseError, bool)>)
    requires
        keys_unique(syntax@),
        node_spec(
            ctx_v(tokens@, syntax@),
            params@,
            id@,
            *old(idx) as int,
            parts_v(old(globals)@),
            *old(fuel) as nat,
        ) is Some,
    ensures
        node_spec(
            ctx_v(tokens@, syntax@),
            params@,
            id@,
            *old(idx) as int,
            parts_v(old(globals)@),
            *old(fuel) as nat,
        ) == Some(
            (
                match r {
                    Ok(n) => Ok(node_v(n)),
                    Err((e, h)) => Err((err_v(e), h)),
                },
                *final(idx) as int,
                parts_v(final(globals)@),
                *final(fuel) as nat,
            ),
        ),
        *final(fuel) <= *old(fuel),
    decreases *old(fuel), 2int,
{
    if *fuel == 0 {
        return Err((ParseError::StepLimit, true));
    }
    *fuel = *fuel - 1;
    let found = find_key(syntax, id.as_str());
    proof {
        lemma_find_head(syntax@, id@, found);
    }
    let i = found.unwrap();
    proof {
        lemma_value_of(syntax@, id@, i as int);
    }
    let mut data = prep_nodes_of(syntax, id);
    let mut harderr = false;
    let res = parse_scope(tokens, syntax, params, idx, &syntax[i].1.nodes, &mut data, &mut harderr, globals, fuel);
    match res {
        Ok(_) => Ok(Node { name: Tokens::Text(id.clone()), data: None, nodes: data }),
        Err(e) => Err(e),
    }
}

/// The empty parts of the head named `id`, which the grammar has.
fn prep_nodes_of(syntax: &Tree, id: &String) -> (r: Vec<(String, ArgNodeType)>)
    requires
        keys_unique(syntax@),
        has_key(syntax@, id@),
    ensures
        parts_v(r@) == fresh_v(value_of(syntax@, id@).parameters@),
{
    crate::tree_walker::prep_nodes(syntax, id).unwrap()
}

/// A node that names another head, as `open_struct_spec` says.
#[verifier::rlimit(80)]
fn open_struct_exec(
    tokens: &Vec<Tokens>,
    syntax: &Tree,
    params: &NodeParameters,
    nodes: &Vec<NodeType>,
    node: &crate::grammar::Node,
    id: &String,
    recoverable: bool,
    node_idx: &mut usize,
    adv_tok: &mut bool,
    adv_node: &mut bool,
    idx: &mut usize,
    data: &mut Vec<(String, ArgNodeType)>,
    harderr: &mut bool,
    globals: &mut Vec<(String, ArgNodeType)>,
    fuel: &mut usize,
) -> (r: Step)
    requires
        keys_unique(syntax@),
        *old(node_idx) < nodes@.len(),
        open_struct_spec(
            ctx_v(tokens@, syntax@),
            scope_of(params@, nodes@),
            *node,
            id@,
            recoverable,
            loc(*old(node_idx) as int, *old(adv_tok), *old(adv_node)),
            walk_v(*old(idx), old(data)@, *old(harderr), old(globals)@, *old(fuel)),
        ) is Some,
    ensures
        open_struct_spec(
            ctx_v(tokens@, syntax@),
            scope_of(params@, nodes@),
            *node,
            id@,
            recoverable,
            loc(*old(node_idx) as int, *old(adv_tok), *old(adv_node)),
            walk_v(*old(idx), old(data)@, *old(harderr), old(globals)@, *old(fuel)),
        ) == Some(
            step_v(
                r,
                loc(*final(node_idx) as int, *final(adv_tok), *final(adv_node)),
                walk_v(*final(idx), final(data)@, *final(harderr), final(globals)@, *final(fuel)),
            ),
        ),
        *final(fuel) <= *old(fuel),
    decreases *old(fuel), 4int,
{
    let n_nodes = nodes.len();
    let start_idx = *idx;
    let res = parse_node(tokens, syntax, &node.arguments, idx, id, globals, fuel);
    match res {
        Ok(nd) => {
            let s = scope_enter_exec(
                tokens,
                syntax,
                params,
                nodes,
                &node.nodes,
                node_idx,
                adv_tok,
                adv_node,
                idx,
                data,
                harderr,
                globals,
                fuel,
            );
            match s {
                Step::Go => {
                    let s2 = check_exec(
                        tokens,
                        syntax,
                        params,
                        nodes,
                        &node.arguments,
                        &node.kind,
                        Some(&nd),
                        node_idx,
                        adv_tok,
                        adv_node,
                        idx,
                        data,
                        harderr,
                        globals,
                        *fuel,
                    );
                    match s2 {
                        Step::Go => {
                            *adv_tok = false;
                            advance_exec(node_idx, false, *adv_node, idx);
                            Step::Go
                        },
                        other => other,
                    }
                },
                other => other,
            }
        },
        Err((e, h)) => match e {
            ParseError::FileEndPeaceful => Step::Ret(Err((ParseError::FileEndPeaceful, false))),
            _ => {
                *adv_tok = false;
                if h || !recoverable {
                    return Step::Ret(Err((e, *harderr)));
                }
                *idx = start_idx;
                *adv_node = true;
                advance_exec(node_idx, false, true, idx);
                Step::Go
            },
        },
    }
}

/// The command `notempty` over the parts named in `parts`.
fn notempty_exec(
    tokens: &Vec<Tokens>,
    syntax: &Tree,
    params: &NodeParameters,
    nodes: &Vec<NodeType>,
    node_idx: usize,
    kind: &Tokens,
    parts: &Vec<String>,
    idx: usize,
    data: &Vec<(String, ArgNodeType)>,
    harderr: &mut bool,
    globals: &Vec<(String, ArgNodeType)>,
    fuel: usize,
) -> (r: Option<ParseError>)
    requires
        node_idx < nodes@.len(),
        notempty_cmd(
            ctx_v(tokens@, syntax@),
            scope_of(params@, nodes@),
            node_idx as int,
            kind@,
            strs_v(parts@),
            walk_v(idx, data@, *old(harderr), globals@, fuel),
        ) is Some,
    ensures
        notempty_cmd(
            ctx_v(tokens@, syntax@),
            scope_of(params@, nodes@),
            node_idx as int,
            kind@,
            strs_v(parts@),
            walk_v(idx, data@, *old(harderr), globals@, fuel),
        ) == match r {
            None => Some(None),
            Some(e) => Some(Some((Err::<Option<(nat, ReturnActions)>, (ErrV, bool)>((err_v(e), true)), walk_v(idx, data@, true, globals@, fuel)))),
        },
        r is None ==> *final(harderr) == *old(harderr),
        r is Some ==> *final(harderr),
{
    let ghost c = ctx_v(tokens@, syntax@);
    let ghost sc = scope_of(params@, nodes@);
    let ghost ps = strs_v(parts@);
    let ghost w = walk_v(idx, data@, *harderr, globals@, fuel);
    let mut i: usize = 0;
    assert(ps.subrange(0, ps.len() as int) =~= ps);
    while i < parts.len()
        invariant
            i <= parts@.len(),
            ps == strs_v(parts@),
            c == ctx_v(tokens@, syntax@),
            sc == scope_of(params@, nodes@),
            w == walk_v(idx, data@, *old(harderr), globals@, fuel),
            *harderr == *old(harderr),
            node_idx < nodes@.len(),
            notempty_cmd(c, sc, node_idx as int, kind@, ps, w) is Some,
            notempty_cmd(c, sc, node_idx as int, kind@, ps, w) == notempty_cmd(
                c,
                sc,
                node_idx as int,
                kind@,
                ps.subrange(i as int, ps.len() as int),
                w,
            ),
        decreases parts@.len() - i,
    {
        let ghost rest = ps.subrange(i as int, ps.len() as int);
        assert(rest[0] == parts@[i as int]@);
        assert(rest.subrange(1, rest.len() as int) =~= ps.subrange(i + 1, ps.len() as int));
        match find_entry(data, parts[i].as_str()) {
            Some(j) => {
                proof {
                    lemma_parts_v(data@);
                }
                match &data[j].1 {
                    ArgNodeType::Array(arr) => {
                        proof {
                            lemma_nodes_v(arr@);
                        }
                        if arr.len() == 0 {
                            *harderr = true;
                            let e = kind_error(tokens, nodes, node_idx, kind, idx);
                            proof {
                                if node_idx > 0 {
                                    lemma_one_of_err(
                                        ctx_v(tokens@, seq![]),
                                        c,
                                        scope_of(seq![], nodes@),
                                        sc,
                                        node_idx as int,
                                        idx as int,
                                    );
                                }
                            }
                            return Some(e);
                        }
                    },
                    ArgNodeType::Value(_) => {},
                }
            },
            None => {},
        }
        i = i + 1;
    }
    assert(ps.subrange(i as int, ps.len() as int) =~= Seq::<Seq<char>>::empty());
    None
}

/// How a grammar token relates to a source token.
fn compare(tree_element: &Tokens, source_token: &Tokens) -> (r: CompareResult)
    ensures
        tree_element@ is Text ==> (r matches CompareResult::Ident(s) && TokenView::Text(s@)
            == tree_element@),
        !(tree_element@ is Text) ==> (r is Eq || r is NotEq) && (r is Eq <==> token_matches(
            tree_element@,
            source_token@,
        )),
{
    crate::tree_walker::token_cmp(tree_element, source_token)
}

/// One pass of the loop of a scope, as `iter_spec` says.
#[verifier::rlimit(100)]
#[verifier::spinoff_prover]
fn iter_exec(
    tokens: &Vec<Tokens>,
    syntax: &Tree,
    params: &NodeParameters,
    nodes: &Vec<NodeType>,
    endon: &Option<Tokens>,
    endwith: &Option<Tokens>,
    node_idx: &mut usize,
    adv_tok: &mut bool,
    adv_node: &mut bool,
    idx: &mut usize,
    data: &mut Vec<(String, ArgNodeType)>,
    harderr: &mut bool,
    globals: &mut Vec<(String, ArgNodeType)>,
    fuel: &mut usize,
) -> (r: Step)
    requires
        keys_unique(syntax@),
        opt_tok(*endon) == scope_of(params@, nodes@).endon,
        opt_tok(*endwith) == scope_of(params@, nodes@).endwith,
        iter_spec(
            ctx_v(tokens@, syntax@),
            scope_of(params@, nodes@),
            *old(node_idx) as int,
            walk_v(*old(idx), old(data)@, *old(harderr), old(globals)@, *old(fuel)),
        ) is Some,
    ensures
        iter_spec(
            ctx_v(tokens@, syntax@),
            scope_of(params@, nodes@),
            *old(node_idx) as int,
            walk_v(*old(idx), old(data)@, *old(harderr), old(globals)@, *old(fuel)),
        ) == Some(
            step_v(
                r,
                loc(*final(node_idx) as int, *final(adv_tok), *final(adv_node)),
                walk_v(*final(idx), final(data)@, *final(harderr), final(globals)@, *final(fuel)),
            ),
        ),
        *final(fuel) <= *old(fuel),
    decreases *old(fuel), 5int,
{
    let ghost c = ctx_v(tokens@, syntax@);
    let ghost sc = scope_of(params@, nodes@);
    let n_tok = tokens.len();
    let n_nodes = nodes.len();
    assert(c.toks.len() == n_tok);
    *adv_node = true;
    *adv_tok = true;
    if *idx >= n_tok {
        if crate::tree_walker::maybes_end(nodes, *node_idx) == nodes.len() {
            return Step::Ret(Ok(Some((0, ReturnActions::Advance))));
        }
        if *node_idx >= nodes.len() - 1 {
            return Step::Ret(Err((ParseError::FileEndPeaceful, true)));
        }
        return Step::Ret(Err((ParseError::FileEnd, *harderr)));
    }
    if let Some(t) = endon {
        if token_eq(&tokens[*idx], t) {
            return Step::Ret(Ok(Some((0, ReturnActions::Chain))));
        }
    }
    if let Some(t) = endwith {
        if token_eq(&tokens[*idx], t) {
            *idx = *idx + 1;
            return Step::Ret(Ok(Some((0, ReturnActions::Chain))));
        }
    }
    match &nodes[*node_idx] {
        NodeType::Expect(node) => match compare(&node.kind, &tokens[*idx]) {
            CompareResult::Eq => {
                let s = check_exec(
                    tokens,
                    syntax,
                    params,
                    nodes,
                    &node.arguments,
                    &node.kind,
                    None,
                    node_idx,
                    adv_tok,
                    adv_node,
                    idx,
                    data,
                    harderr,
                    globals,
                    *fuel,
                );
                match s {
                    Step::Go => {
                        advance_exec(node_idx, *adv_tok, *adv_node, idx);
                        Step::Go
                    },
                    other => other,
                }
            },
            CompareResult::NotEq => {
                let e = kind_error(tokens, nodes, *node_idx, &node.kind, *idx);
                proof {
                    if *node_idx > 0 {
                        lemma_one_of_err(
                            ctx_v(tokens@, seq![]),
                            c,
                            scope_of(seq![], nodes@),
                            sc,
                            *node_idx as int,
                            *idx as int,
                        );
                    }
                }
                Step::Ret(Err((e, *harderr)))
            },
            CompareResult::Ident(id) => open_struct_exec(
                tokens,
                syntax,
                params,
                nodes,
                node,
                &id,
                false,
                node_idx,
                adv_tok,
                adv_node,
                idx,
                data,
                harderr,
                globals,
                fuel,
            ),
        },
        NodeType::Maybe(node) => match compare(&node.kind, &tokens[*idx]) {
            CompareResult::Eq => {
                let s = check_exec(
                    tokens,
                    syntax,
                    params,
                    nodes,
                    &node.arguments,
                    &node.kind,
                    None,
                    node_idx,
                    adv_tok,
                    adv_node,
                    idx,
                    data,
                    harderr,
                    globals,
                    *fuel,
                );
                match s {
                    Step::Go => {
                        advance_exec(node_idx, *adv_tok, *adv_node, idx);
                        scope_enter_exec(
                            tokens,
                            syntax,
                            params,
                            nodes,
                            &node.nodes,
                            node_idx,
                            adv_tok,
                            adv_node,
                            idx,
                            data,
                            harderr,
                            globals,
                            fuel,
                        )
                    },
                    other => other,
                }
            },
            CompareResult::NotEq => {
                *adv_tok = false;
                advance_exec(node_idx, false, true, idx);
                Step::Go
            },
            CompareResult::Ident(id) => open_struct_exec(
                tokens,
                syntax,
                params,
                nodes,
                node,
                &id,
                true,
                node_idx,
                adv_tok,
                adv_node,
                idx,
                data,
                harderr,
                globals,
                fuel,
            ),
        },
        NodeType::Command(node) => {
            if let Tokens::Text(word) = &node.kind {
                if text_eq(word.as_str(), "end") {
                    return Step::Ret(Ok(Some((0, ReturnActions::Chain))));
                }
                if text_eq(word.as_str(), "notempty") {
                    let a = get_arg(&node.arguments, "nodes").unwrap();
                    let parts = split_spaces(a.as_str());
                    match notempty_exec(
                        tokens,
                        syntax,
                        params,
                        nodes,
                        *node_idx,
                        &node.kind,
                        &parts,
                        *idx,
                        data,
                        harderr,
                        globals,
                        *fuel,
                    ) {
                        Some(e) => {
                            return Step::Ret(Err((e, true)));
                        },
                        None => {},
                    }
                }
            }
            *adv_tok = false;
            advance_exec(node_idx, false, true, idx);
            Step::Go
        },
        NodeType::ArgsCondition(con) => {
            *idx = *idx - 1;
            if all_match_exec(params, &con.params) {
                *adv_tok = false;
                advance_exec(node_idx, false, true, idx);
                let s = scope_enter_exec(
                    tokens,
                    syntax,
                    params,
                    nodes,
                    &con.nodes,
                    node_idx,
                    adv_tok,
                    adv_node,
                    idx,
                    data,
                    harderr,
                    globals,
                    fuel,
                );
                match s {
                    Step::Go => {
                        *adv_tok = false;
                        *adv_node = false;
                        Step::Go
                    },
                    other => other,
                }
            } else {
                Step::Go
            }
        },
    }
}

/// Walks the nodes of a scope: reads tokens from `idx` on along `nodes`,
/// records what the nodes ask for in the parts of the node being built
/// (`data`) or in the global parts, and says what the scope around it is to
/// do.  Each pass of its loop takes one step of the budget `fuel`.
pub fn parse_scope(
    tokens: &Vec<Tokens>,
    syntax: &Tree,
    params: &NodeParameters,
    idx: &mut usize,
    nodes: &Vec<NodeType>,
    data: &mut Vec<(String, ArgNodeType)>,
    harderr: &mut bool,
    globals: &mut Vec<(String, ArgNodeType)>,
    fuel: &mut usize,
) -> (r: Result<Option<(usize, ReturnActions)>, (ParseError, bool)>)
    requires
        keys_unique(syntax@),
        scope_spec(
            ctx_v(tokens@, syntax@),
            params@,
            nodes@,
            walk_v(*old(idx), old(data)@, *old(harderr), old(globals)@, *old(fuel)),
        ) is Some,
    ensures
        scope_spec(
            ctx_v(tokens@, syntax@),
            params@,
            nodes@,
            walk_v(*old(idx), old(data)@, *old(harderr), old(globals)@, *old(fuel)),
        ) == Some((out_v(r), walk_v(*final(idx), final(data)@, *final(harderr), final(globals)@, *final(fuel)))),
        *final(fuel) <= *old(fuel),
    decreases *old(fuel), 2int,
{
    let ghost c = ctx_v(tokens@, syntax@);
    let ghost sc = scope_of(params@, nodes@);
    let ghost w0 = walk_v(*idx, data@, *harderr, globals@, *fuel);
    let endon = end_token(params, "endon");
    let endwith = end_token(params, "endwith");
    let mut node_idx: usize = 0;
    let mut adv_tok = false;
    let mut adv_node = false;
    loop
        invariant_except_break
            loop_spec(c, sc, node_idx as int, adv_tok, walk_v(*idx, data@, *harderr, globals@, *fuel)) is Some,
            scope_spec(c, params@, nodes@, w0) == loop_spec(
                c,
                sc,
                node_idx as int,
                adv_tok,
                walk_v(*idx, data@, *harderr, globals@, *fuel),
            ),
        invariant
            c == ctx_v(tokens@, syntax@),
            sc == scope_of(params@, nodes@),
            w0 == walk_v(*old(idx), old(data)@, *old(harderr), old(globals)@, *old(fuel)),
            opt_tok(endon) == sc.endon,
            opt_tok(endwith) == sc.endwith,
            keys_unique(syntax@),
            *fuel <= *old(fuel),
        ensures
            scope_spec(c, params@, nodes@, w0) == post_spec(
                c,
                sc,
                adv_tok,
                walk_v(*idx, data@, *harderr, globals@, *fuel),
            ),
        decreases *fuel,
    {
        if node_idx >= nodes.len() {
            break;
        }
        if *fuel == 0 {
            return Err((ParseError::StepLimit, true));
        }
        *fuel = *fuel - 1;
        let s = iter_exec(
            tokens,
            syntax,
            params,
            nodes,
            &endon,
            &endwith,
            &mut node_idx,
            &mut adv_tok,
            &mut adv_node,
            idx,
            data,
            harderr,
            globals,
            fuel,
        );
        match s {
            Step::Go => {},
            Step::Break => {
                break;
            },
            Step::Ret(o) => {
                return o;
            },
        }
    }
    let ghost wb = walk_v(*idx, data@, *harderr, globals@, *fuel);
    proof {
        lemma_post(
            c,
            ctx_v(tokens@, seq![]),
            sc,
            Scope { params: seq![], nodes: seq![], endon: opt_tok(endon), endwith: opt_tok(endwith) },
            adv_tok,
            wb,
            Walk { idx: *idx as int, data: seq![], hard: *harderr, globals: seq![], fuel: 0 },
        );
    }
    let r = post_exec(tokens, &endon, &endwith, adv_tok, idx, *harderr);
    r
}

/// Walks the tokens of a source along a grammar from its head `entry`, with
/// the global parts that the grammar declares: the node built and the global
/// parts, or nothing where the walk fails.  The walk may take as many steps
/// as a `usize` counts.
pub fn generate_tree(
    tokens: &Vec<Tokens>,
    syntax: (&Tree, &Vec<HeadParam>),
    lines: &Vec<(usize, usize)>,
) -> (r: Option<(Node, Vec<(String, ArgNodeType)>)>)
    requires
        keys_unique(syntax.0@),
        node_spec(
            ctx_v(tokens@, syntax.0@),
            seq![],
            "entry"@,
            0,
            fresh_v(syntax.1@),
            usize::MAX as nat,
        ) is Some,
    ensures
        match node_spec(
            ctx_v(tokens@, syntax.0@),
            seq![],
            "entry"@,
            0,
            fresh_v(syntax.1@),
            usize::MAX as nat,
        ).unwrap().0 {
            Ok(n) => r matches Some((t, g)) && node_v(t) == n && parts_v(g@) == node_spec(
                ctx_v(tokens@, syntax.0@),
                seq![],
                "entry"@,
                0,
                fresh_v(syntax.1@),
                usize::MAX as nat,
            ).unwrap().2,
            Err(_) => r is None,
        },
{
    let mut idx: usize = 0;
    let mut globals = crate::tree_walker::fresh_nodes(syntax.1);
    let no_params: NodeParameters = Vec::new();
    let entry = lit("entry");
    let mut fuel = usize::MAX;
    assert(no_params@ =~= Seq::<(String, String)>::empty());
    match parse_node(tokens, syntax.0, &no_params, &mut idx, &entry, &mut globals, &mut fuel) {
        Ok(product) => Some((product, globals)),
        Err(_) => None,
    }
}

} // verus!
