//! Walking source tokens along a grammar: the nodes it builds, how a grammar
//! token is compared with a source token, and the bookkeeping of the walk.
use vstd::prelude::*;
use crate::ast::HeadParam;
use crate::context::{find_key, has_key, key_at, keys_unique, lemma_value_of, value_of};
use crate::grammar::{listed_kind, listed_kinds, param_name, Head, NodeType, Tree};
use crate::lexer::{text_eq, token_eq, views, Tokens, TokenView};
use crate::walker::{fresh_v, lemma_put_parts, parts_v};

verus! {

/// A structure built by the walk: the token it was made from, the token of
/// the grammar it stands for where that is a string, and its parts by name.
pub struct Node {
    pub name: Tokens,
    pub data: Option<Tokens>,
    pub nodes: Vec<(String, ArgNodeType)>,
}

/// A part of a node: a list of nodes or a single one.
pub enum ArgNodeType {
    Array(Vec<Node>),
    Value(Node),
}

impl ArgNodeType {
    /// The single node of the part.
    pub fn get_value(&self) -> (r: &Node)
        requires
            self is Value,
        ensures
            *self == ArgNodeType::Value(*r),
    {
        match self {
            ArgNodeType::Value(val) => val,
            ArgNodeType::Array(_) => vstd::pervasive::unreached(),
        }
    }

    /// The nodes of the list.
    pub fn get_array(&self) -> (r: &Vec<Node>)
        requires
            self is Array,
        ensures
            *self == ArgNodeType::Array(*r),
    {
        match self {
            ArgNodeType::Array(val) => val,
            ArgNodeType::Value(_) => vstd::pervasive::unreached(),
        }
    }
}

/// How a grammar token relates to a source token.
#[derive(Debug, PartialEq, Eq)]
pub enum CompareResult {
    Eq,
    NotEq,
    /// the grammar names another head
    Ident(String),
}

/// Whether a source token satisfies a grammar token that is not a name.
pub open spec fn token_matches(tree: TokenView, src: TokenView) -> bool {
    match tree {
        TokenView::String(t) => if t == "'string"@ {
            src is String
        } else if t == "'number"@ {
            src is Number
        } else if t == "'float"@ {
            src matches TokenView::Number(_, k) && k == 'f'
        } else if t == "'int"@ {
            src matches TokenView::Number(_, k) && k == 'i'
        } else if t == "'text"@ {
            src is Text
        } else if t == "'char"@ {
            src is Char
        } else if t == "'eof"@ {
            src is EndOfFile
        } else if t == "'any"@ {
            true
        } else {
            src matches TokenView::Text(s) && s == t
        },
        _ => tree == src,
    }
}

/// Compares a token of the grammar with a token of the source: a name of the
/// grammar stands for another head; a string stands for a class of tokens
/// or for a word; any other token must be the same token.
pub fn token_cmp(tree_element: &Tokens, source_token: &Tokens) -> (r: CompareResult)
    ensures
        tree_element@ is Text ==> (r matches CompareResult::Ident(s) && TokenView::Text(s@)
            == tree_element@),
        !(tree_element@ is Text) ==> (r is Eq || r is NotEq) && (r is Eq <==> token_matches(
            tree_element@,
            source_token@,
        )),
{
    match tree_element {
        Tokens::String(txt) => {
            let t = txt.as_str();
            if text_eq(t, "'string") {
                if let Tokens::String(_) = source_token {
                    return CompareResult::Eq;
                }
                CompareResult::NotEq
            } else if text_eq(t, "'number") {
                if let Tokens::Number(_, _) = source_token {
                    return CompareResult::Eq;
                }
                CompareResult::NotEq
            } else if text_eq(t, "'float") {
                if let Tokens::Number(_, kind) = source_token {
                    return if *kind == 'f' {
                        CompareResult::Eq
                    } else {
                        CompareResult::NotEq
                    };
                }
                CompareResult::NotEq
            } else if text_eq(t, "'int") {
                if let Tokens::Number(_, kind) = source_token {
                    return if *kind == 'i' {
                        CompareResult::Eq
                    } else {
                        CompareResult::NotEq
                    };
                }
                CompareResult::NotEq
            } else if text_eq(t, "'text") {
                if let Tokens::Text(_) = source_token {
                    return CompareResult::Eq;
                }
                CompareResult::NotEq
            } else if text_eq(t, "'char") {
                if let Tokens::Char(_) = source_token {
                    return CompareResult::Eq;
                }
                CompareResult::NotEq
            } else if text_eq(t, "'eof") {
                if let Tokens::EndOfFile = source_token {
                    return CompareResult::Eq;
                }
                CompareResult::NotEq
            } else if text_eq(t, "'any") {
                CompareResult::Eq
            } else {
                if let Tokens::Text(s) = source_token {
                    if text_eq(s.as_str(), t) {
                        return CompareResult::Eq;
                    }
                    return CompareResult::NotEq;
                }
                CompareResult::NotEq
            }
        },
        Tokens::Text(ident) => CompareResult::Ident(ident.clone()),
        _ => {
            if token_eq(tree_element, source_token) {
                CompareResult::Eq
            } else {
                CompareResult::NotEq
            }
        },
    }
}

/// Whether the node is optional.
fn is_maybe(n: &NodeType) -> (r: bool)
    ensures
        r == (n is Maybe),
{
    match n {
        NodeType::Maybe(_) => true,
        _ => false,
    }
}

/// The place after the run of optional nodes that starts at `idx`.
pub open spec fn run_end(s: Seq<NodeType>, idx: int) -> int
    decreases s.len() - idx,
{
    if 0 <= idx < s.len() && s[idx] is Maybe {
        run_end(s, idx + 1)
    } else {
        idx
    }
}

/// The end (one past the last place) of the run of optional nodes that
/// starts at `idx`; `idx` itself where that node is not optional.
pub fn maybes_end(syntax: &Vec<NodeType>, idx: usize) -> (r: usize)
    requires
        idx < syntax@.len(),
    ensures
        idx <= r <= syntax@.len(),
        forall|k: int| idx <= k < r ==> (#[trigger] syntax@[k]) is Maybe,
        r < syntax@.len() ==> !(syntax@[r as int] is Maybe),
        r == run_end(syntax@, idx as int),
{
    let mut idx = idx;
    let ghost start = idx;
    while is_maybe(&syntax[idx])
        invariant_except_break
            start <= idx < syntax.len(),
            forall|k: int| start <= k < idx ==> (#[trigger] syntax@[k]) is Maybe,
            run_end(syntax@, start as int) == run_end(syntax@, idx as int),
        ensures
            start <= idx <= syntax@.len(),
            forall|k: int| start <= k < idx ==> (#[trigger] syntax@[k]) is Maybe,
            idx < syntax@.len() ==> !(syntax@[idx as int] is Maybe),
            run_end(syntax@, start as int) == idx,
        decreases syntax@.len() - idx,
    {
        assert(run_end(syntax@, idx as int) == run_end(syntax@, idx + 1));
        idx = idx + 1;
        if idx == syntax.len() {
            assert(run_end(syntax@, idx as int) == idx as int);
            break;
        }
    }
    idx
}

/// The place of the last node at or before `idx` that is not optional, or the
/// first place where every node up to `idx` is optional.
pub open spec fn run_start(s: Seq<NodeType>, idx: int) -> int
    decreases idx,
{
    if idx > 0 && s[idx] is Maybe {
        run_start(s, idx - 1)
    } else {
        idx
    }
}

/// The start of the run of optional nodes that ends at `idx`, counting the
/// expected node before it: where the walk back stops on a command or a
/// condition, the place after it.
pub fn maybes_start(syntax: &Vec<NodeType>, idx: usize) -> (r: usize)
    requires
        idx < syntax@.len(),
    ensures
        r == (if syntax@[run_start(syntax@, idx as int)] is Expect || syntax@[run_start(
            syntax@,
            idx as int,
        )] is Maybe {
            run_start(syntax@, idx as int)
        } else {
            run_start(syntax@, idx as int) + 1
        }),
{
    let mut idx = idx;
    let ghost start = idx as int;
    while is_maybe(&syntax[idx])
        invariant_except_break
            idx <= start < syntax@.len(),
            run_start(syntax@, start) == run_start(syntax@, idx as int),
        ensures
            idx <= start < syntax.len(),
            run_start(syntax@, start) == idx,
        decreases idx,
    {
        if idx == 0 {
            break;
        }
        idx = idx - 1;
    }
    match &syntax[idx] {
        NodeType::Expect(_) => idx,
        NodeType::Maybe(_) => idx,
        _ => idx + 1,
    }
}

/// The tokens that the expected and optional nodes of the places `range.0`
/// up to `range.1` look for.
pub fn extract_tokens_range(syntax: &Vec<NodeType>, range: (usize, usize)) -> (r: Vec<Tokens>)
    requires
        range.0 < range.1 ==> range.1 <= syntax@.len(),
    ensures
        range.0 < range.1 ==> views(r@) == listed_kinds(
            syntax@.subrange(range.0 as int, range.1 as int),
        ),
        range.0 >= range.1 ==> r@.len() == 0,
{
    let mut result: Vec<Tokens> = Vec::new();
    let mut idx = range.0;
    while idx < range.1
        invariant
            range.0 < range.1 ==> range.1 <= syntax@.len(),
            range.0 <= idx,
            range.0 < range.1 ==> idx <= range.1,
            range.0 < range.1 ==> views(result@) == listed_kinds(
                syntax@.subrange(range.0 as int, idx as int),
            ),
            range.0 >= range.1 ==> result@.len() == 0,
        decreases range.1 - idx,
    {
        let ghost before = result@;
        proof {
            let s = syntax@.subrange(range.0 as int, idx + 1);
            assert(s.drop_last() =~= syntax@.subrange(range.0 as int, idx as int));
            assert(s.last() == syntax@[idx as int]);
        }
        match &syntax[idx] {
            NodeType::Expect(tok) => {
                result.push(tok.kind.copy());
            },
            NodeType::Maybe(tok) => {
                result.push(tok.kind.copy());
            },
            _ => {},
        }
        assert(views(result@) =~= views(before) + listed_kind(syntax@[idx as int]));
        idx = idx + 1;
    }
    result
}

/// What the walk found: a token of the source or a node built from a head.
pub enum TokenOrNode {
    Token(Tokens),
    Node(Node),
}

/// Whether `n` is the node made of the source token `found` where the
/// grammar expected `expected`: the grammar token is kept where it is a string.
pub open spec fn made_of(n: Node, found: TokenView, expected: TokenView) -> bool {
    &&& n.name@ == found
    &&& expected is String ==> (n.data matches Some(d) && d@ == expected)
    &&& !(expected is String) ==> n.data is None
    &&& n.nodes@.len() == 0
}

/// Whether `n` is what the walk records of `found`.
pub open spec fn recorded(n: Node, found: TokenOrNode, expected: TokenView) -> bool {
    match found {
        TokenOrNode::Node(m) => n == m,
        TokenOrNode::Token(t) => made_of(n, t@, expected),
    }
}

/// The node made of a source token where the grammar expected `token_expected`.
pub fn construct_token(token_found: &Tokens, token_expected: &Tokens) -> (r: Node)
    ensures
        made_of(r, token_found@, token_expected@),
{
    match token_expected {
        Tokens::String(_) => Node {
            name: token_found.copy(),
            data: Some(token_expected.copy()),
            nodes: Vec::new(),
        },
        _ => Node { name: token_found.copy(), data: None, nodes: Vec::new() },
    }
}

/// Records what was found in a part: added to a list, or put in place of a
/// single node.
pub fn set(token_found: TokenOrNode, token_expected: &Tokens, place: &mut ArgNodeType)
    ensures
        match *old(place) {
            ArgNodeType::Array(a) => *final(place) matches ArgNodeType::Array(b) && b@.len()
                == a@.len() + 1 && b@.drop_last() == a@ && recorded(
                b@.last(),
                token_found,
                token_expected@,
            ),
            ArgNodeType::Value(_) => *final(place) matches ArgNodeType::Value(v) && recorded(
                v,
                token_found,
                token_expected@,
            ),
        },
{
    let item = match token_found {
        TokenOrNode::Node(node) => node,
        TokenOrNode::Token(token) => construct_token(&token, token_expected),
    };
    match place {
        ArgNodeType::Array(arr) => {
            arr.push(item);
        },
        ArgNodeType::Value(val) => {
            *val = item;
        },
    }
}

/// `m` with the entry named `k` set to `v`: replaced where there is one,
/// added at the end otherwise.
pub open spec fn put_spec<V>(m: Seq<(String, V)>, k: String, v: V) -> Seq<(String, V)> {
    if has_key(m, k@) {
        m.update(choose|i: int| key_at(m, k@, i), (k, v))
    } else {
        m.push((k, v))
    }
}

/// Sets the entry named `k` of `m` to `v`, as a map does.
pub fn put<V>(m: &mut Vec<(String, V)>, k: String, v: V)
    requires
        keys_unique(old(m)@),
    ensures
        keys_unique(final(m)@),
        final(m)@ == put_spec(old(m)@, k, v),
{
    match find_key(m, k.as_str()) {
        Some(i) => {
            proof {
                let c = choose|j: int| key_at(m@, k@, j);
                assert(key_at(m@, k@, c));
                if c != i as int {
                    if c < i {
                        assert(m@[c].0@ != m@[i as int].0@);
                    } else {
                        assert(m@[i as int].0@ != m@[c].0@);
                    }
                }
            }
            let ghost before = m@;
            m.set(i, (k, v));
            assert forall|a: int, b: int| 0 <= a < b < m@.len() implies (#[trigger] m@[a]).0@
                != (#[trigger] m@[b]).0@ by {
                assert(m@[a].0@ == before[a].0@);
                assert(m@[b].0@ == before[b].0@);
            }
        },
        None => {
            let ghost before = m@;
            m.push((k, v));
            assert forall|a: int, b: int| 0 <= a < b < m@.len() implies (#[trigger] m@[a]).0@
                != (#[trigger] m@[b]).0@ by {
                if b == before.len() {
                    assert(!key_at(before, k@, a));
                }
            }
        },
    }
}

/// Whether `a` is the empty part that a parameter declared as a list
/// (`array`) or as a single node starts with.
pub open spec fn fresh_part(a: ArgNodeType, array: bool) -> bool {
    match a {
        ArgNodeType::Array(v) => array && v@.len() == 0,
        ArgNodeType::Value(n) => !array && n.name@ == TokenView::Text("'none"@) && n.data is None
            && n.nodes@.len() == 0,
    }
}

/// Of the last parameter of `ps` named `k`: whether it declares a list.
pub open spec fn declared(ps: Seq<HeadParam>, k: Seq<char>) -> Option<bool>
    decreases ps.len(),
{
    if ps.len() == 0 {
        None
    } else if param_name(ps.last()) == k {
        Some(ps.last() is Array)
    } else {
        declared(ps.drop_last(), k)
    }
}

/// Whether `m` holds, for each parameter name of `ps`, the empty part of its
/// last declaration, and nothing else.
pub open spec fn fresh_parts(m: Seq<(String, ArgNodeType)>, ps: Seq<HeadParam>) -> bool {
    &&& keys_unique(m)
    &&& forall|k: Seq<char>| has_key(m, k) <==> (#[trigger] declared(ps, k)) is Some
    &&& forall|i: int|
        0 <= i < m.len() ==> (declared(ps, (#[trigger] m[i]).0@) matches Some(b) && fresh_part(
            m[i].1,
            b,
        ))
}

/// The empty parts of a head's parameters, by name.
pub fn fresh_nodes(params: &Vec<HeadParam>) -> (r: Vec<(String, ArgNodeType)>)
    ensures
        fresh_parts(r@, params@),
        parts_v(r@) == fresh_v(params@),
{
    let mut map: Vec<(String, ArgNodeType)> = Vec::new();
    let mut i: usize = 0;
    while i < params.len()
        invariant
            i <= params@.len(),
            fresh_parts(map@, params@.take(i as int)),
            parts_v(map@) == fresh_v(params@.take(i as int)),
        decreases params@.len() - i,
    {
        let ghost before = map@;
        let (name, part) = match &params[i] {
            HeadParam::Array(arr) => (arr.clone(), ArgNodeType::Array(Vec::new())),
            HeadParam::Value(val) => (
                val.clone(),
                ArgNodeType::Value(
                    Node { name: Tokens::Text(String::from_str("'none")), data: None, nodes: Vec::new() },
                ),
            ),
        };
        assert(name@ == param_name(params@[i as int]));
        assert(fresh_part(part, params@[i as int] is Array));
        put(&mut map, name, part);
        proof {
            let ps = params@.take(i + 1);
            assert(ps.drop_last() =~= params@.take(i as int));
            assert(ps.last() == params@[i as int]);
            lemma_put_fresh(before, map@, params@.take(i as int), ps, name, part);
            lemma_put_parts(before, name, part);
            assert(crate::walker::part_v(part) == crate::walker::fresh_part_v(ps.last() is Array));
        }
        i = i + 1;
    }
    assert(params@.take(params@.len() as int) =~= params@);
    map
}

/// Putting the empty part of the next parameter keeps the parts fresh.
proof fn lemma_put_fresh(
    before: Seq<(String, ArgNodeType)>,
    after: Seq<(String, ArgNodeType)>,
    ps: Seq<HeadParam>,
    ps2: Seq<HeadParam>,
    name: String,
    part: ArgNodeType,
)
    requires
        fresh_parts(before, ps),
        ps2.len() == ps.len() + 1,
        ps2.drop_last() == ps,
        name@ == param_name(ps2.last()),
        fresh_part(part, ps2.last() is Array),
        keys_unique(after),
        after == put_spec(before, name, part),
    ensures
        fresh_parts(after, ps2),
{
    assert forall|k: Seq<char>| has_key(after, k) <==> (#[trigger] declared(ps2, k)) is Some by {
        if k == name@ {
            if has_key(before, k) {
                let c = choose|i: int| key_at(before, k, i);
                assert(key_at(after, k, c));
            } else {
                assert(key_at(after, k, before.len() as int));
            }
        } else {
            if has_key(before, k) {
                let c = choose|i: int| key_at(before, k, i);
                assert(key_at(after, k, c));
            }
            if has_key(after, k) {
                let c = choose|i: int| key_at(after, k, i);
                assert(key_at(before, k, c));
            }
        }
    }
    assert forall|i: int| 0 <= i < after.len() implies (declared(ps2, (#[trigger] after[i]).0@) matches Some(b)
        && fresh_part(after[i].1, b)) by {
        if after[i].0@ != name@ {
            assert(after[i] == before[i]);
        }
    }
}

/// The empty parts of the parameters of the head named `id`, or nothing
/// where the grammar has no such head.
pub fn prep_nodes(syntax: &Tree, id: &String) -> (r: Option<Vec<(String, ArgNodeType)>>)
    requires
        keys_unique(syntax@),
    ensures
        r is None <==> !has_key(syntax@, id@),
        r matches Some(m) ==> fresh_parts(m@, value_of(syntax@, id@).parameters@),
        r matches Some(m) ==> parts_v(m@) == fresh_v(value_of(syntax@, id@).parameters@),
{
    match find_key(syntax, id.as_str()) {
        Some(i) => {
            proof {
                lemma_value_of(syntax@, id@, i as int);
            }
            Some(fresh_nodes(&syntax[i].1.parameters))
        },
        None => None,
    }
}

/// After setting the entry named `k` to `v`, the names are those before and
/// `k`, the entry named `k` holds `v`, and every other entry is unchanged.
pub proof fn lemma_put_spec<V>(m: Seq<(String, V)>, k: String, v: V)
    requires
        keys_unique(m),
        keys_unique(put_spec(m, k, v)),
    ensures
        forall|q: Seq<char>| has_key(put_spec(m, k, v), q) <==> (has_key(m, q) || q == k@),
        value_of(put_spec(m, k, v), k@) == v,
        forall|q: Seq<char>|
            has_key(m, q) && q != k@ ==> value_of(put_spec(m, k, v), q) == value_of(m, q),
{
    let m2 = put_spec(m, k, v);
    assert forall|q: Seq<char>| has_key(m2, q) <==> (has_key(m, q) || q == k@) by {
        if has_key(m, q) {
            let c = choose|i: int| key_at(m, q, i);
            assert(key_at(m2, q, c) || q == k@);
        }
        if q == k@ {
            if has_key(m, q) {
                let c = choose|i: int| key_at(m, q, i);
                assert(key_at(m2, q, c));
            } else {
                assert(key_at(m2, q, m.len() as int));
            }
        }
        if has_key(m2, q) && q != k@ {
            let c = choose|i: int| key_at(m2, q, i);
            assert(key_at(m, q, c));
        }
    }
    assert forall|q: Seq<char>| has_key(m2, q) implies value_of(m2, q) == (if q == k@ {
        v
    } else {
        value_of(m, q)
    }) by {
        let c = choose|i: int| key_at(m2, q, i);
        assert(key_at(m2, q, c));
        lemma_value_of(m2, q, c);
        if has_key(m, k@) {
            let c0 = choose|i: int| key_at(m, k@, i);
            assert(key_at(m, k@, c0));
            if c != c0 {
                assert(m2[c] == m[c]);
                if q == k@ {
                    if c < c0 {
                        assert(m[c].0@ != m[c0].0@);
                    } else {
                        assert(m[c0].0@ != m[c].0@);
                    }
                } else {
                    assert(key_at(m, q, c));
                    lemma_value_of(m, q, c);
                }
            }
        } else {
            if c < m.len() {
                assert(m2[c] == m[c]);
                assert(key_at(m, q, c));
                if q != k@ {
                    lemma_value_of(m, q, c);
                }
            }
        }
    }
}

} // verus!
