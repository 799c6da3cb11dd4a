//! The grammar that drives the parser: named heads, each a list of nodes to
//! expect, to allow, to obey as commands, or to enter when the parameters of
//! the enclosing node match.
use vstd::prelude::*;
use crate::ast::HeadParam;
use crate::context::{find_key, has_key, key_at, keys_unique, lemma_value_of, value_of};
use crate::formater::{fmt_run, refactor};
use crate::lexer::{lex, lexable, text_eq, views, Operators, Tokens, TokenView};
use crate::preprocessor::{raw_positions, tokenize, Errors};
use vstd::string::StringSliceAdditionalSpecFns;
use crate::tree_walker::{lemma_put_spec, put, put_spec};

verus! {

/// Arguments of a grammar node, by name; no name occurs twice.
pub type NodeParameters = Vec<(String, String)>;

/// The heads of a grammar, by name; no name occurs twice.
pub type Tree = Vec<(String, Head)>;

/// A named rule of the grammar.
pub struct Head {
    pub name: String,
    pub parameters: Vec<HeadParam>,
    pub nodes: Vec<NodeType>,
}

/// A token to look for, its arguments and the nodes that follow it.
pub struct Node {
    pub kind: Tokens,
    pub arguments: NodeParameters,
    pub nodes: Vec<NodeType>,
}

/// The ways a grammar node is used.
pub enum NodeType {
    /// may be present
    Maybe(Node),
    /// must be present
    Expect(Node),
    /// an instruction to the parser
    Command(Node),
    /// entered when the parameters match
    ArgsCondition(ArgsCon),
}

/// Nodes entered when the parameters of the enclosing head match these.
pub struct ArgsCon {
    pub params: NodeParameters,
    pub nodes: Vec<NodeType>,
}

/// The name of a head parameter.
pub open spec fn param_name(p: HeadParam) -> Seq<char> {
    match p {
        HeadParam::Array(n) => n@,
        HeadParam::Value(n) => n@,
    }
}

/// The token a node of these kinds looks for: that of an expected or an
/// optional node.
pub open spec fn listed_kind(n: NodeType) -> Seq<TokenView> {
    match n {
        NodeType::Expect(node) => seq![node.kind@],
        NodeType::Maybe(node) => seq![node.kind@],
        _ => seq![],
    }
}

/// The tokens that the expected and optional nodes of `s` look for, in order.
pub open spec fn listed_kinds(s: Seq<NodeType>) -> Seq<TokenView>
    decreases s.len(),
{
    if s.len() == 0 {
        seq![]
    } else {
        listed_kinds(s.drop_last()) + listed_kind(s.last())
    }
}

/// A head parameter as a value: whether it declares a list, and its name.
pub open spec fn param_view(p: HeadParam) -> (bool, Seq<char>) {
    (p is Array, param_name(p))
}

/// A copy of a head parameter.
pub fn copy_param(p: &HeadParam) -> (r: HeadParam)
    ensures
        param_view(r) == param_view(*p),
{
    match p {
        HeadParam::Array(name) => HeadParam::Array(name.clone()),
        HeadParam::Value(name) => HeadParam::Value(name.clone()),
    }
}

/// The name of the head that declares the global parameters.
pub open spec fn globals_name() -> Seq<char> {
    "globals"@
}

/// The parameters that the head named `globals` declares, copied; none where
/// the grammar has no such head.
pub fn get_globals(tree: &Tree) -> (r: Vec<HeadParam>)
    requires
        keys_unique(tree@),
    ensures
        has_key(tree@, globals_name()) ==> r@.map_values(|p: HeadParam| param_view(p))
            == value_of(tree@, globals_name()).parameters@.map_values(|p: HeadParam| param_view(p)),
        !has_key(tree@, globals_name()) ==> r@.len() == 0,
{
    let mut globals: Vec<HeadParam> = Vec::new();
    match find_key(tree, "globals") {
        Some(i) => {
            proof {
                lemma_value_of(tree@, globals_name(), i as int);
            }
            let params = &tree[i].1.parameters;
            let mut j: usize = 0;
            while j < params.len()
                invariant
                    j <= params@.len(),
                    globals@.map_values(|p: HeadParam| param_view(p)) == params@.take(
                        j as int,
                    ).map_values(|p: HeadParam| param_view(p)),
                decreases params@.len() - j,
            {
                let ghost before = globals@;
                globals.push(copy_param(&params[j]));
                proof {
                    assert(globals@.map_values(|p: HeadParam| param_view(p)) =~= before.map_values(
                        |p: HeadParam| param_view(p),
                    ).push(param_view(params@[j as int])));
                    assert(params@.take(j + 1).map_values(|p: HeadParam| param_view(p))
                        =~= params@.take(j as int).map_values(|p: HeadParam| param_view(p)).push(
                        param_view(params@[j as int]),
                    ));
                }
                j = j + 1;
            }
            assert(params@.take(params@.len() as int) =~= params@);
        },
        None => {},
    }
    globals
}

/// The number of tab tokens from place `i` on.
pub open spec fn tabs_at(toks: Seq<TokenView>, i: int) -> nat
    decreases toks.len() - i,
{
    if 0 <= i < toks.len() && toks[i] is Tab {
        1 + tabs_at(toks, i + 1)
    } else {
        0
    }
}

/// The number of tabs that start at `idx`; a token that is not a tab must
/// follow them.
pub fn count_tabs(tokens: &Vec<Tokens>, idx: usize) -> (r: usize)
    requires
        idx + tabs_at(views(tokens@), idx as int) < tokens@.len(),
    ensures
        r == tabs_at(views(tokens@), idx as int),
{
    let ghost toks = views(tokens@);
    let mut count: usize = 0;
    while is_tab(&tokens[idx + count])
        invariant
            idx + count + tabs_at(toks, idx + count) < tokens.len(),
            tabs_at(toks, idx as int) == count + tabs_at(toks, idx + count),
            toks == views(tokens@),
        decreases tokens@.len() - (idx + count),
    {
        count = count + 1;
    }
    count
}

/// Whether the token is a tab.
fn is_tab(t: &Tokens) -> (r: bool)
    ensures
        r == (t@ is Tab),
{
    match t {
        Tokens::Tab => true,
        _ => false,
    }
}

/// Reading the arguments `name = "value"` that start at place `i`: where
/// reading ends and the pairs read, or nothing where it would run past the
/// last token.  A pair whose value is not a string is passed over.
pub open spec fn args_spec(toks: Seq<TokenView>, i: int) -> Option<(int, Seq<(Seq<char>, Seq<char>)>)>
    decreases toks.len() - i,
{
    if !(0 <= i < toks.len()) {
        None
    } else if toks[i] is Text {
        if i + 2 >= toks.len() {
            None
        } else {
            match args_spec(toks, i + 3) {
                None => None,
                Some((e, ps)) => Some(
                    (
                        e,
                        match toks[i + 2] {
                            TokenView::String(v) => seq![(toks[i]->Text_0, v)],
                            _ => seq![],
                        } + ps,
                    ),
                ),
            }
        }
    } else {
        Some((i, seq![]))
    }
}

/// The map of name-value pairs, a later pair winning over an earlier one.
pub open spec fn pairs_map(ps: Seq<(Seq<char>, Seq<char>)>) -> Map<Seq<char>, Seq<char>>
    decreases ps.len(),
{
    if ps.len() == 0 {
        Map::empty()
    } else {
        pairs_map(ps.drop_last()).insert(ps.last().0, ps.last().1)
    }
}

/// The map that arguments with distinct names stand for.
pub open spec fn params_map(m: Seq<(String, String)>) -> Map<Seq<char>, Seq<char>> {
    Map::new(|k: Seq<char>| has_key(m, k), |k: Seq<char>| value_of(m, k)@)
}

/// Setting an argument is inserting into its map.
pub proof fn lemma_put_map(m: Seq<(String, String)>, k: String, v: String)
    requires
        keys_unique(m),
        keys_unique(put_spec(m, k, v)),
    ensures
        params_map(put_spec(m, k, v)) == params_map(m).insert(k@, v@),
{
    lemma_put_spec(m, k, v);
    assert(params_map(put_spec(m, k, v)) =~= params_map(m).insert(k@, v@));
}

/// Reads the arguments `name = "value"` that start at `idx`, moving `idx`
/// past them; a later argument of a name wins over an earlier one.
pub fn get_node_args(tokens: &Vec<Tokens>, idx: &mut usize) -> (r: NodeParameters)
    requires
        args_spec(views(tokens@), *old(idx) as int) is Some,
    ensures
        keys_unique(r@),
        *final(idx) == args_spec(views(tokens@), *old(idx) as int).unwrap().0,
        params_map(r@) == pairs_map(args_spec(views(tokens@), *old(idx) as int).unwrap().1),
{
    let ghost toks = views(tokens@);
    let ghost start = *idx as int;
    let mut args: NodeParameters = Vec::new();
    let ghost mut read: Seq<(Seq<char>, Seq<char>)> = seq![];
    loop
        invariant
            toks == views(tokens@),
            toks.len() == tokens.len(),
            args_spec(toks, start) is Some,
            args_spec(toks, *idx as int) is Some,
            args_spec(toks, start).unwrap().0 == args_spec(toks, *idx as int).unwrap().0,
            args_spec(toks, start).unwrap().1 == read + args_spec(toks, *idx as int).unwrap().1,
            keys_unique(args@),
            params_map(args@) == pairs_map(read),
        ensures
            keys_unique(args@),
            *idx == args_spec(toks, start).unwrap().0,
            params_map(args@) == pairs_map(args_spec(toks, start).unwrap().1),
        decreases tokens@.len() - *idx,
    {
        let i = *idx;
        match &tokens[i] {
            Tokens::Text(name) => {
                let ghost rest = args_spec(toks, i + 3);
                *idx = i + 2;
                match &tokens[i + 2] {
                    Tokens::String(value) => {
                        let ghost before = args@;
                        let n = name.clone();
                        let v = value.clone();
                        let ghost gn = n;
                        let ghost gv = v;
                        put(&mut args, n, v);
                        proof {
                            lemma_put_map(before, gn, gv);
                            assert(params_map(args@) == params_map(before).insert(name@, value@));
                            let p = (toks[i as int]->Text_0, value@);
                            assert(pairs_map(read.push(p)) == pairs_map(read).insert(p.0, p.1)) by {
                                assert(read.push(p).drop_last() =~= read);
                            }
                            assert(read + args_spec(toks, i as int).unwrap().1 =~= read.push(p) + rest.unwrap().1);
                            read = read.push(p);
                        }
                    },
                    _ => {
                        assert(read + args_spec(toks, i as int).unwrap().1 =~= read + rest.unwrap().1);
                    },
                }
                *idx = i + 3;
            },
            _ => {
                assert(read =~= read + seq![]);
                break;
            },
        }
    }
    args
}

/// A grammar node as a value: the token it looks for, its arguments and the
/// nodes that follow it.
pub enum NodeView {
    Maybe(TokenView, Map<Seq<char>, Seq<char>>, Seq<NodeView>),
    Expect(TokenView, Map<Seq<char>, Seq<char>>, Seq<NodeView>),
    Command(TokenView, Map<Seq<char>, Seq<char>>, Seq<NodeView>),
    ArgsCondition(Map<Seq<char>, Seq<char>>, Seq<NodeView>),
}

/// The value of a grammar node.
pub open spec fn node_view(n: NodeType) -> NodeView
    decreases n,
{
    match n {
        NodeType::Maybe(node) => NodeView::Maybe(
            node.kind@,
            params_map(node.arguments@),
            nodes_view(node.nodes@),
        ),
        NodeType::Expect(node) => NodeView::Expect(
            node.kind@,
            params_map(node.arguments@),
            nodes_view(node.nodes@),
        ),
        NodeType::Command(node) => NodeView::Command(
            node.kind@,
            params_map(node.arguments@),
            nodes_view(node.nodes@),
        ),
        NodeType::ArgsCondition(con) => NodeView::ArgsCondition(
            params_map(con.params@),
            nodes_view(con.nodes@),
        ),
    }
}

/// The values of grammar nodes.
pub open spec fn nodes_view(s: Seq<NodeType>) -> Seq<NodeView>
    decreases s,
{
    if s.len() == 0 {
        seq![]
    } else {
        nodes_view(s.subrange(0, s.len() - 1)).push(node_view(s[s.len() - 1]))
    }
}

/// Reading the nodes indented by `tabs` tabs that start at `idx`: the tokens
/// left (the marks and kinds of the nodes read are taken out), where reading
/// ends and the nodes read; nothing where reading would run past the last
/// token.  A node is a line of `tabs` tabs, its token, a mark (`?` for an
/// optional node, `!` for a command, `=` for a condition on arguments), its
/// arguments, and the nodes indented one tab deeper below it.
pub open spec fn nodes_spec(toks: Seq<TokenView>, idx: int, tabs: nat) -> Option<
    (Seq<TokenView>, int, Seq<NodeView>),
>
    decreases toks.len() - idx,
{
    if !(0 <= idx && tabs >= 1 && idx + tabs_at(toks, idx) < toks.len()) {
        None
    } else if tabs_at(toks, idx) != tabs {
        Some((toks, idx, seq![]))
    } else {
        let i = idx + tabs;
        if i + 1 >= toks.len() {
            None
        } else {
            let mark = toks[i + 1];
            if mark is Operator && !(mark == TokenView::Operator(Operators::Not)) && !(mark
                == TokenView::Operator(Operators::Equal)) {
                Some((toks, i, seq![]))
            } else {
                let t2 = if mark is Optional || mark == TokenView::Operator(Operators::Not) {
                    toks.remove(i + 1).remove(i)
                } else if mark == TokenView::Operator(Operators::Equal) {
                    toks
                } else {
                    toks.remove(i)
                };
                match args_spec(t2, i) {
                    None => None,
                    Some((e, ps)) => if !(i <= e <= t2.len() && t2.len() <= toks.len()) {
                        None
                    } else {
                        match nodes_spec(t2, e, tabs + 1) {
                            None => None,
                            Some((t3, e3, sub)) => {
                                let args = pairs_map(ps);
                                let node = if mark is Optional {
                                    NodeView::Maybe(toks[i], args, sub)
                                } else if mark == TokenView::Operator(Operators::Not) {
                                    NodeView::Command(toks[i], args, sub)
                                } else if mark == TokenView::Operator(Operators::Equal) {
                                    NodeView::ArgsCondition(args, sub)
                                } else {
                                    NodeView::Expect(toks[i], args, sub)
                                };
                                if !(e3 <= t3.len() && t3.len() - e3 <= t2.len() - e) {
                                    None
                                } else {
                                    match nodes_spec(t3, e3, tabs) {
                                        None => None,
                                        Some((t4, e4, more)) => Some(
                                            (t4, e4, seq![node] + more),
                                        ),
                                    }
                                }
                            },
                        }
                    },
                }
            }
        }
    }
}

/// Appending a node appends its value.
proof fn lemma_nodes_view_push(s: Seq<NodeType>, n: NodeType)
    ensures
        nodes_view(s.push(n)) == nodes_view(s).push(node_view(n)),
{
    assert(s.push(n).subrange(0, s.len() as int) =~= s);
}

/// Takes the token at place `j` out of the tokens.
fn take_token(tokens: &mut Vec<Tokens>, j: usize) -> (r: Tokens)
    requires
        j < old(tokens)@.len(),
    ensures
        views(final(tokens)@) == views(old(tokens)@).remove(j as int),
        r@ == views(old(tokens)@)[j as int],
{
    let r = tokens.remove(j);
    assert(views(tokens@) =~= views(old(tokens)@).remove(j as int));
    r
}

/// The mark that follows the token of a grammar node.
enum Mark {
    /// `?`
    Optional,
    /// `!`
    Command,
    /// `=`
    Condition,
    /// another operator: no node
    Other,
    /// no mark
    Plain,
}

/// The mark that a token makes.
fn mark_of(t: &Tokens) -> (r: Mark)
    ensures
        r is Optional <==> t@ is Optional,
        r is Command <==> t@ == TokenView::Operator(Operators::Not),
        r is Condition <==> t@ == TokenView::Operator(Operators::Equal),
        r is Other <==> (t@ is Operator && !(t@ == TokenView::Operator(Operators::Not)) && !(t@
            == TokenView::Operator(Operators::Equal))),
        r is Plain <==> !(t@ is Optional || t@ is Operator),
{
    match t {
        Tokens::Optional => Mark::Optional,
        Tokens::Operator(Operators::Not) => Mark::Command,
        Tokens::Operator(Operators::Equal) => Mark::Condition,
        Tokens::Operator(_) => Mark::Other,
        _ => Mark::Plain,
    }
}

/// Reads the nodes indented by `tabs` tabs that start at `idx`, taking the
/// marks and kinds of the nodes read out of the tokens, and moving `idx`
/// past them.
#[verifier::rlimit(40)]
#[verifier::spinoff_prover]
pub fn get_nodes(tokens: &mut Vec<Tokens>, idx: &mut usize, tabs: usize) -> (r: Vec<NodeType>)
    requires
        nodes_spec(views(old(tokens)@), *old(idx) as int, tabs as nat) is Some,
    ensures
        views(final(tokens)@) == nodes_spec(views(old(tokens)@), *old(idx) as int, tabs as nat).unwrap().0,
        *final(idx) as int == nodes_spec(views(old(tokens)@), *old(idx) as int, tabs as nat).unwrap().1,
        nodes_view(r@) == nodes_spec(views(old(tokens)@), *old(idx) as int, tabs as nat).unwrap().2,
    decreases old(tokens)@.len() - *old(idx),
{
    let ghost orig = views(tokens@);
    let ghost start = *idx as int;
    let mut nodes: Vec<NodeType> = Vec::new();
    loop
        invariant_except_break
            nodes_spec(views(tokens@), *idx as int, tabs as nat) is Some,
            nodes_spec(orig, start, tabs as nat) == Some(
                (
                    nodes_spec(views(tokens@), *idx as int, tabs as nat).unwrap().0,
                    nodes_spec(views(tokens@), *idx as int, tabs as nat).unwrap().1,
                    nodes_view(nodes@) + nodes_spec(views(tokens@), *idx as int, tabs as nat).unwrap().2,
                ),
            ),
        invariant
            *idx <= tokens@.len(),
            tokens@.len() - *idx <= orig.len() - start,
            orig.len() == old(tokens)@.len(),
            start == *old(idx),
        ensures
            views(tokens@) == nodes_spec(orig, start, tabs as nat).unwrap().0,
            *idx as int == nodes_spec(orig, start, tabs as nat).unwrap().1,
            nodes_view(nodes@) == nodes_spec(orig, start, tabs as nat).unwrap().2,
        decreases tokens@.len() - *idx,
    {
        let ghost toks = views(tokens@);
        let ghost cur = *idx as int;
        let ghost before = nodes@;
        if count_tabs(tokens, *idx) != tabs {
            assert(nodes_view(nodes@) + seq![] =~= nodes_view(nodes@));
            break;
        }
        assert(toks.len() == tokens.len());
        assert(cur + tabs_at(toks, cur) < toks.len());
        *idx = *idx + tabs;
        let i = *idx;
        assert(i + 1 < toks.len());
        let mark = mark_of(&tokens[i + 1]);
        let kind: Option<Tokens> = match mark {
            Mark::Other => {
                assert(nodes_view(nodes@) + seq![] =~= nodes_view(nodes@));
                break;
            },
            Mark::Optional => {
                take_token(tokens, i + 1);
                Some(take_token(tokens, i))
            },
            Mark::Command => {
                take_token(tokens, i + 1);
                Some(take_token(tokens, i))
            },
            Mark::Condition => None,
            Mark::Plain => Some(take_token(tokens, i)),
        };
        let ghost t2 = views(tokens@);
        let args = get_node_args(tokens, idx);
        let ghost e = *idx as int;
        let sub = get_nodes(tokens, idx, tabs + 1);
        let node = match mark {
            Mark::Optional => NodeType::Maybe(
                Node { kind: kind.unwrap(), arguments: args, nodes: sub },
            ),
            Mark::Command => NodeType::Command(
                Node { kind: kind.unwrap(), arguments: args, nodes: sub },
            ),
            Mark::Condition => NodeType::ArgsCondition(ArgsCon { params: args, nodes: sub }),
            _ => NodeType::Expect(Node { kind: kind.unwrap(), arguments: args, nodes: sub }),
        };
        proof {
            lemma_nodes_view_push(nodes@, node);
        }
        nodes.push(node);
        proof {
            let more = nodes_spec(views(tokens@), *idx as int, tabs as nat).unwrap().2;
            assert(nodes_view(nodes@) + more =~= nodes_view(before) + (seq![node_view(node)]
                + more));
        }
    }
    nodes
}

/// A head of the grammar as a value: its name, its parameters and its nodes.
pub struct HeadView {
    pub name: Seq<char>,
    pub params: Seq<(bool, Seq<char>)>,
    pub nodes: Seq<NodeView>,
}

/// The value of a head.
pub open spec fn head_view(h: Head) -> HeadView {
    HeadView {
        name: h.name@,
        params: h.parameters@.map_values(|p: HeadParam| param_view(p)),
        nodes: nodes_view(h.nodes@),
    }
}

/// The place of the first text token at or after `i`.
pub open spec fn first_text(toks: Seq<TokenView>, i: int) -> Option<int>
    decreases toks.len() - i,
{
    if !(0 <= i < toks.len()) {
        None
    } else if toks[i] is Text {
        Some(i)
    } else {
        first_text(toks, i + 1)
    }
}

/// Reading the parameters of a head that start at `p`, up to the tab that
/// starts its nodes: where reading stops and the parameters (a list `[name`
/// or a single `name`), or no parameters where a bracket is closed or holds
/// no name; nothing where reading would run past the last token or never
/// stop (on a token that is none of these).
pub open spec fn head_params_spec(toks: Seq<TokenView>, p: int) -> Option<
    (int, Option<Seq<(bool, Seq<char>)>>),
>
    decreases toks.len() - p,
{
    if !(0 <= p < toks.len()) {
        None
    } else {
        match toks[p] {
            TokenView::Tab => Some((p, Some(seq![]))),
            TokenView::SquareBracket(closed) => if closed {
                Some((p, None))
            } else if p + 1 >= toks.len() {
                None
            } else if toks[p + 1] is Text {
                match head_params_spec(toks, p + 2) {
                    None => None,
                    Some((e, ps)) => Some(
                        (
                            e,
                            match ps {
                                Some(ps) => Some(seq![(true, toks[p + 1]->Text_0)] + ps),
                                None => None,
                            },
                        ),
                    ),
                }
            } else {
                Some((p, None))
            },
            TokenView::Text(t) => match head_params_spec(toks, p + 1) {
                None => None,
                Some((e, ps)) => Some(
                    (
                        e,
                        match ps {
                            Some(ps) => Some(seq![(false, t)] + ps),
                            None => None,
                        },
                    ),
                ),
            },
            _ => None,
        }
    }
}

/// Reading the head that starts at `idx`: the tokens left, where reading
/// ends, and the head, or no head at the end of the tokens or where its
/// parameters are malformed; nothing where reading would run past the last
/// token or never stop.  A head is its name (the first text token), its
/// parameters, and its nodes, indented by one tab.
pub open spec fn head_spec(toks: Seq<TokenView>, idx: int) -> Option<
    (Seq<TokenView>, int, Option<HeadView>),
> {
    if idx == toks.len() {
        Some((toks, idx, None))
    } else {
        match first_text(toks, idx) {
            None => None,
            Some(j) => match head_params_spec(toks, j + 1) {
                None => None,
                Some((e, None)) => Some((toks, e, None)),
                Some((e, Some(ps))) => match nodes_spec(toks, e, 1) {
                    None => None,
                    Some((t, e2, ns)) => Some(
                        (t, e2, Some(HeadView { name: toks[j]->Text_0, params: ps, nodes: ns })),
                    ),
                },
            },
        }
    }
}

/// Reads the head that starts at `idx`: its name, its parameters and its
/// nodes; none at the end of the tokens or where its parameters are malformed.
pub fn read_head(tokens: &mut Vec<Tokens>, idx: &mut usize) -> (r: Option<Head>)
    requires
        head_spec(views(old(tokens)@), *old(idx) as int) is Some,
    ensures
        views(final(tokens)@) == head_spec(views(old(tokens)@), *old(idx) as int).unwrap().0,
        *final(idx) as int == head_spec(views(old(tokens)@), *old(idx) as int).unwrap().1,
        match r {
            Some(h) => head_spec(views(old(tokens)@), *old(idx) as int).unwrap().2 == Some(
                head_view(h),
            ),
            None => head_spec(views(old(tokens)@), *old(idx) as int).unwrap().2 is None,
        },
{
    let ghost toks = views(tokens@);
    let ghost start = *idx as int;
    if tokens.len() == *idx {
        return None;
    }
    let mut name: String = String::new();
    loop
        invariant_except_break
            first_text(toks, *idx as int) == first_text(toks, start),
            first_text(toks, start) is Some,
        invariant
            toks == views(tokens@),
            toks.len() == tokens.len(),
        ensures
            first_text(toks, start) == Some(*idx - 1),
            toks[*idx - 1] == TokenView::Text(name@),
            0 < *idx <= toks.len(),
        decreases toks.len() - *idx,
    {
        let i = *idx;
        match &tokens[i] {
            Tokens::Text(txt) => {
                *idx = i + 1;
                name = txt.clone();
                break;
            },
            _ => {},
        }
        *idx = i + 1;
    }
    let ghost j = *idx - 1;
    let mut parameters: Vec<HeadParam> = Vec::new();
    let ghost mut read: Seq<(bool, Seq<char>)> = seq![];
    assert(head_spec(toks, start) is Some);
    loop
        invariant
            toks == views(tokens@),
            toks.len() == tokens.len(),
            start != toks.len(),
            toks == views(old(tokens)@),
            start == *old(idx),
            first_text(toks, start) == Some(j),
            head_spec(toks, start) is Some,
            head_params_spec(toks, *idx as int) is Some,
            head_params_spec(toks, j + 1) is Some,
            head_params_spec(toks, j + 1).unwrap().0 == head_params_spec(toks, *idx as int).unwrap().0,
            head_params_spec(toks, j + 1).unwrap().1 == (match head_params_spec(toks, *idx as int).unwrap().1 {
                Some(ps) => Some(read + ps),
                None => None,
            }),
            parameters@.map_values(|p: HeadParam| param_view(p)) == read,
        ensures
            toks[*idx as int] is Tab,
            head_params_spec(toks, j + 1) == Some((*idx as int, Some(read))),
            parameters@.map_values(|p: HeadParam| param_view(p)) == read,
        decreases toks.len() - *idx,
    {
        let i = *idx;
        let ghost before = parameters@;
        match &tokens[i] {
            Tokens::Tab => {
                assert(read + seq![] =~= read);
                break;
            },
            Tokens::SquareBracket(closed) => {
                if *closed {
                    assert(toks[i as int] == TokenView::SquareBracket(true));
                    assert(head_params_spec(toks, i as int) == Some(
                        (i as int, None::<Seq<(bool, Seq<char>)>>),
                    ));
                    assert(head_params_spec(toks, j + 1) == Some(
                        (i as int, None::<Seq<(bool, Seq<char>)>>),
                    ));
                    assert(head_spec(toks, start) == Some((toks, i as int, None::<HeadView>)));
                    return None;
                }
                match &tokens[i + 1] {
                    Tokens::Text(txt) => {
                        parameters.push(HeadParam::Array(txt.clone()));
                        proof {
                            let p = (true, txt@);
                            assert(parameters@.map_values(|p: HeadParam| param_view(p))
                                =~= before.map_values(|p: HeadParam| param_view(p)).push(p));
                            match head_params_spec(toks, i + 2).unwrap().1 {
                                Some(ps) => {
                                    assert(read + (seq![p] + ps) =~= read.push(p) + ps);
                                },
                                None => {},
                            }
                            read = read.push(p);
                        }
                        *idx = i + 2;
                    },
                    _ => {
                        return None;
                    },
                }
            },
            Tokens::Text(txt) => {
                parameters.push(HeadParam::Value(txt.clone()));
                proof {
                    let p = (false, txt@);
                    assert(parameters@.map_values(|p: HeadParam| param_view(p)) =~= before.map_values(
                        |p: HeadParam| param_view(p),
                    ).push(p));
                    match head_params_spec(toks, i + 1).unwrap().1 {
                        Some(ps) => {
                            assert(read + (seq![p] + ps) =~= read.push(p) + ps);
                        },
                        None => {},
                    }
                    read = read.push(p);
                }
                *idx = i + 1;
            },
            _ => {
                assert(false);
            },
        }
    }
    let nodes = get_nodes(tokens, idx, 1);
    Some(Head { name, parameters, nodes })
}

/// Reading heads one after another from `idx`, each followed by one token
/// that is passed over, until no head is read: the tokens left and the heads
/// read; nothing where reading would run past the last token or never stop.
pub open spec fn tree_spec(toks: Seq<TokenView>, idx: int) -> Option<(Seq<TokenView>, Seq<HeadView>)>
    decreases toks.len() - idx,
{
    if !(0 <= idx <= toks.len()) {
        None
    } else {
        match head_spec(toks, idx) {
            None => None,
            Some((t, e, None)) => Some((t, seq![])),
            Some((t, e, Some(h))) => if !(0 <= e + 1 <= t.len() && t.len() - (e + 1) < toks.len()
                - idx) {
                None
            } else {
                match tree_spec(t, e + 1) {
                    None => None,
                    Some((t2, hs)) => Some((t2, seq![h] + hs)),
                }
            },
        }
    }
}

/// The heads by name, a later head winning over an earlier one of the same name.
pub open spec fn heads_map(hs: Seq<HeadView>) -> Map<Seq<char>, HeadView>
    decreases hs.len(),
{
    if hs.len() == 0 {
        Map::empty()
    } else {
        heads_map(hs.drop_last()).insert(hs.last().name, hs.last())
    }
}

/// The heads that a grammar with distinct names stands for.
pub open spec fn tree_map(t: Seq<(String, Head)>) -> Map<Seq<char>, HeadView> {
    Map::new(|k: Seq<char>| has_key(t, k), |k: Seq<char>| head_view(value_of(t, k)))
}

/// Reads the heads of a grammar, by name, and the parameters that its
/// `globals` head declares.
pub fn analize_tree(tokens: &mut Vec<Tokens>) -> (r: (Tree, Vec<HeadParam>))
    requires
        tree_spec(views(old(tokens)@), 0) is Some,
    ensures
        keys_unique(r.0@),
        views(final(tokens)@) == tree_spec(views(old(tokens)@), 0).unwrap().0,
        tree_map(r.0@) == heads_map(tree_spec(views(old(tokens)@), 0).unwrap().1),
        tree_map(r.0@).contains_key(globals_name()) ==> r.1@.map_values(
            |p: HeadParam| param_view(p),
        ) == tree_map(r.0@)[globals_name()].params,
        !tree_map(r.0@).contains_key(globals_name()) ==> r.1@.len() == 0,
{
    let ghost orig = views(tokens@);
    let mut map: Tree = Vec::new();
    let mut idx: usize = 0;
    let ghost mut read: Seq<HeadView> = seq![];
    loop
        invariant_except_break
            tree_spec(views(tokens@), idx as int) is Some,
            tree_spec(orig, 0) == Some(
                (
                    tree_spec(views(tokens@), idx as int).unwrap().0,
                    read + tree_spec(views(tokens@), idx as int).unwrap().1,
                ),
            ),
        invariant
            orig == views(old(tokens)@),
            keys_unique(map@),
            tree_map(map@) == heads_map(read),
        ensures
            views(tokens@) == tree_spec(orig, 0).unwrap().0,
            heads_map(read) == heads_map(tree_spec(orig, 0).unwrap().1),
        decreases tokens@.len() - idx,
    {
        let ghost toks = views(tokens@);
        let ghost cur = idx as int;
        match read_head(tokens, &mut idx) {
            Some(head) => {
                let ghost h = head_view(head);
                let ghost before = map@;
                let name = head.name.clone();
                let ghost gn = name;
                let ghost gh = head;
                put(&mut map, name, head);
                proof {
                    lemma_put_spec(before, gn, gh);
                    assert(tree_map(map@) =~= tree_map(before).insert(gn@, h));
                    assert(read.push(h).drop_last() =~= read);
                    assert(read + tree_spec(toks, cur).unwrap().1 =~= read.push(h)
                        + tree_spec(views(tokens@), idx + 1).unwrap().1);
                    read = read.push(h);
                }
                assert(idx + 1 <= views(tokens@).len());
                assert(views(tokens@).len() == tokens.len());
                idx = idx + 1;
            },
            None => {
                assert(read + seq![] =~= read);
                break;
            },
        }
    }
    let globals = get_globals(&map);
    proof {
        if has_key(map@, globals_name()) {
            assert(tree_map(map@).contains_key(globals_name()));
        }
    }
    (map, globals)
}

/// The tokens of a grammar text after formatting.
pub open spec fn formatted(source: Seq<u8>) -> Seq<TokenView> {
    fmt_run(lex(source), raw_positions(source), 0).unwrap().0
}

/// Reads the grammar written in `source`: its heads by name, and the
/// parameters that its `globals` head declares.
pub fn generate_ast(source: &str) -> (r: Option<(Tree, Vec<HeadParam>)>)
    requires
        lexable(source.spec_bytes()),
        fmt_run(lex(source.spec_bytes()), raw_positions(source.spec_bytes()), 0) is Some,
        tree_spec(formatted(source.spec_bytes()), 0) is Some,
    ensures
        r matches Some(p) && {
            &&& keys_unique(p.0@)
            &&& tree_map(p.0@) == heads_map(tree_spec(formatted(source.spec_bytes()), 0).unwrap().1)
            &&& tree_map(p.0@).contains_key(globals_name()) ==> p.1@.map_values(
                |q: HeadParam| param_view(q),
            ) == tree_map(p.0@)[globals_name()].params
            &&& !tree_map(p.0@).contains_key(globals_name()) ==> p.1@.len() == 0
        },
{
    let (tokens, mut lines, mut errors) = tokenize(source.as_bytes(), false);
    match refactor(tokens, &mut lines, &mut errors) {
        Ok(mut refactored) => Some(analize_tree(&mut refactored)),
        Err(_) => None,
    }
}

} // verus!
