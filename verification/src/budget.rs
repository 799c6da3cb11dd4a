//! The step budget of the walk decides only walks that use it up: a walk
//! that ends with steps left comes out the same under any larger budget.
use vstd::prelude::*;
use crate::grammar::{Node, NodeType};
use crate::lexer::TokenView;
use crate::walker::{
    advance_spec, at, back_spec, check_spec, check_tail, head_names, iter_spec, loc,
    loop_spec, node_spec, notempty_cmd, open_struct_spec, post_spec, scope_enter_spec, scope_of, scope_spec,
    set_all, space_parts, arg_of, vfind, item_of, set_v, fresh_v, ws_words, Ctx, Flow, FoundV, Loc, OutV,
    ReturnActions, Scope, Walk,
};

verus! {

/// The walk with `d` more steps.
pub open spec fn plus(w: Walk, d: nat) -> Walk {
    Walk { idx: w.idx, data: w.data, hard: w.hard, globals: w.globals, fuel: w.fuel + d }
}

/// The walk at the end of a piece of a pass.
pub open spec fn flow_walk(f: Flow) -> Walk {
    match f {
        Flow::Go(_, w) => w,
        Flow::Break(_, w) => w,
        Flow::Ret(_, w) => w,
    }
}

/// The flow with `d` more steps left.
pub open spec fn flow_plus(f: Flow, d: nat) -> Flow {
    match f {
        Flow::Go(l, w) => Flow::Go(l, plus(w, d)),
        Flow::Break(l, w) => Flow::Break(l, plus(w, d)),
        Flow::Ret(o, w) => Flow::Ret(o, plus(w, d)),
    }
}

/// The optional flow with `d` more steps left.
pub open spec fn opt_flow_plus(f: Option<Flow>, d: nat) -> Option<Flow> {
    match f {
        Some(x) => Some(flow_plus(x, d)),
        None => None,
    }
}

/// What a scope gives back, with `d` more steps left.
pub open spec fn out_plus(r: Option<(OutV, Walk)>, d: nat) -> Option<(OutV, Walk)> {
    match r {
        Some((o, w)) => Some((o, plus(w, d))),
        None => None,
    }
}

/// Passing the node and the token keeps the steps left, and is the same
/// with more of them.
proof fn lemma_advance_plus(l: Loc, w: Walk, d: nat)
    ensures
        advance_spec(l, plus(w, d)) == opt_flow_plus(advance_spec(l, w), d),
        advance_spec(l, w) matches Some(f) ==> flow_walk(f).fuel == w.fuel,
{
}

/// Going back keeps the steps left, and is the same with more of them.
proof fn lemma_back_plus(num: nat, act: ReturnActions, l: Loc, w: Walk, d: nat)
    ensures
        back_spec(num, act, l, plus(w, d)) == opt_flow_plus(back_spec(num, act, l, w), d),
        back_spec(num, act, l, w) matches Some(f) ==> flow_walk(f).fuel == w.fuel,
{
}

/// The end of a scope keeps the steps left, and is the same with more of them.
proof fn lemma_post_plus(c: Ctx, sc: Scope, adv_tok: bool, w: Walk, d: nat)
    ensures
        post_spec(c, sc, adv_tok, plus(w, d)) == out_plus(post_spec(c, sc, adv_tok, w), d),
        post_spec(c, sc, adv_tok, w) matches Some((_, w2)) ==> w2.fuel == w.fuel,
{
}

/// Recording a found item, with `d` more steps left.
pub open spec fn set_plus(r: Option<Result<Walk, (OutV, Walk)>>, d: nat) -> Option<Result<Walk, (OutV, Walk)>> {
    match r {
        Some(Ok(w)) => Some(Ok(plus(w, d))),
        Some(Err((o, w))) => Some(Err((o, plus(w, d)))),
        None => None,
    }
}

/// Recording what was found keeps the steps left, and is the same with
/// more of them.
proof fn lemma_set_all_plus(toks: Seq<TokenView>, words: Seq<Seq<char>>, found: FoundV, expected: TokenView, w: Walk, d: nat)
    ensures
        set_all(toks, words, found, expected, plus(w, d)) == set_plus(set_all(toks, words, found, expected, w), d),
        set_all(toks, words, found, expected, w) matches Some(Ok(w2)) ==> w2.fuel == w.fuel,
        set_all(toks, words, found, expected, w) matches Some(Err((_, w2))) ==> w2.fuel == w.fuel,
    decreases words.len(),
{
    if words.len() > 0 {
        let wd = words[0];
        let rest = words.subrange(1, words.len() as int);
        match vfind(w.data, wd) {
            Some(i) => match item_of(toks, found, expected, w.idx) {
                None => {},
                Some(item) => {
                    lemma_set_all_plus(
                        toks,
                        rest,
                        found,
                        expected,
                        Walk {
                            idx: w.idx,
                            data: w.data.update(i, (w.data[i].0, set_v(item, w.data[i].1))),
                            hard: w.hard,
                            globals: w.globals,
                            fuel: w.fuel,
                        },
                        d,
                    );
                },
            },
            None => match vfind(w.globals, wd) {
                Some(i) => match item_of(toks, found, expected, w.idx) {
                    None => {},
                    Some(item) => {
                        lemma_set_all_plus(
                            toks,
                            rest,
                            found,
                            expected,
                            Walk {
                                idx: w.idx,
                                data: w.data,
                                hard: w.hard,
                                globals: w.globals.update(i, (w.globals[i].0, set_v(item, w.globals[i].1))),
                                fuel: w.fuel,
                            },
                            d,
                        );
                    },
                },
                None => {},
            },
        }
    }
}

/// The result of the command `notempty`, with `d` more steps left.
pub open spec fn notempty_plus(r: Option<Option<(OutV, Walk)>>, d: nat) -> Option<Option<(OutV, Walk)>> {
    match r {
        Some(Some((o, w))) => Some(Some((o, plus(w, d)))),
        Some(None) => Some(None),
        None => None,
    }
}

/// The command `notempty` keeps the steps left, and is the same with more
/// of them.
proof fn lemma_notempty_plus(c: Ctx, sc: Scope, node_idx: int, kind: TokenView, parts: Seq<Seq<char>>, w: Walk, d: nat)
    ensures
        notempty_cmd(c, sc, node_idx, kind, parts, plus(w, d)) == notempty_plus(
            notempty_cmd(c, sc, node_idx, kind, parts, w),
            d,
        ),
        notempty_cmd(c, sc, node_idx, kind, parts, w) matches Some(Some((_, w2))) ==> w2.fuel == w.fuel,
    decreases parts.len(),
{
    if parts.len() > 0 {
        lemma_notempty_plus(c, sc, node_idx, kind, parts.subrange(1, parts.len() as int), w, d);
    }
}

/// The arguments `back`, `end`, `pass` and `err` keep the steps left, and
/// are read the same with more of them.
proof fn lemma_check_tail_plus(c: Ctx, sc: Scope, args: Seq<(String, String)>, kind: TokenView, l: Loc, w: Walk, d: nat)
    ensures
        check_tail(c, sc, args, kind, l, plus(w, d)) == opt_flow_plus(check_tail(c, sc, args, kind, l, w), d),
        check_tail(c, sc, args, kind, l, w) matches Some(f) ==> flow_walk(f).fuel == w.fuel,
{
}

/// The arguments of a node that matched keep the steps left, and are read
/// the same with more of them.
proof fn lemma_check_plus(
    c: Ctx,
    sc: Scope,
    args: Seq<(String, String)>,
    kind: TokenView,
    found: FoundV,
    l: Loc,
    w: Walk,
    d: nat,
)
    ensures
        check_spec(c, sc, args, kind, found, l, plus(w, d)) == opt_flow_plus(check_spec(c, sc, args, kind, found, l, w), d),
        check_spec(c, sc, args, kind, found, l, w) matches Some(f) ==> flow_walk(f).fuel == w.fuel,
{
    let l1 = if arg_of(args, "peek"@) is Some {
        loc(l.node_idx, false, l.adv_node)
    } else {
        l
    };
    let i1 = match arg_of(args, "advance"@) {
        Some(a) => w.idx + match crate::walker::parse_uint(a) {
            Some(n) => n as int,
            None => 1int,
        },
        None => w.idx,
    };
    let i2 = match arg_of(args, "#advance"@) {
        Some(a) => i1 - match crate::walker::parse_uint(a) {
            Some(n) => n as int,
            None => 1int,
        },
        None => i1,
    };
    let h = match arg_of(args, "harderr"@) {
        Some(a) => a == "true"@,
        None => w.hard,
    };
    let w2 = Walk { idx: i2, data: w.data, hard: h, globals: w.globals, fuel: w.fuel };
    if !(i1 > usize::MAX || i2 < 0) {
        if arg_of(args, "notempty"@) is None {
            if let Some(a) = arg_of(args, "set"@) {
                lemma_set_all_plus(c.toks, ws_words(a), found, kind, w2, d);
                if let Some(Ok(w3)) = set_all(c.toks, ws_words(a), found, kind, w2) {
                    lemma_check_tail_plus(c, sc, args, kind, l1, w3, d);
                }
            } else {
                lemma_check_tail_plus(c, sc, args, kind, l1, w2, d);
            }
        } else {
            lemma_check_tail_plus(c, sc, args, kind, l1, w2, d);
        }
    }
}

/// What reading a head gives back, with `d` more steps left.
pub open spec fn node_plus(
    r: Option<(Result<crate::walker::NodeV, (crate::walker::ErrV, bool)>, int, Seq<(Seq<char>, crate::walker::PartV)>, nat)>,
    d: nat,
) -> Option<(Result<crate::walker::NodeV, (crate::walker::ErrV, bool)>, int, Seq<(Seq<char>, crate::walker::PartV)>, nat)> {
    match r {
        Some((o, i, g, f)) => Some((o, i, g, f + d)),
        None => None,
    }
}

/// Reading a head never adds steps; where it ends with steps left, it is
/// the same with more of them.
proof fn lemma_node_plus(
    c: Ctx,
    params: Seq<(String, String)>,
    id: Seq<char>,
    idx: int,
    globals: Seq<(Seq<char>, crate::walker::PartV)>,
    fuel: nat,
    d: nat,
)
    ensures
        node_spec(c, params, id, idx, globals, fuel) matches Some((_, _, _, f)) ==> f <= fuel,
        node_spec(c, params, id, idx, globals, fuel) matches Some((_, _, _, f)) && f > 0 ==> node_spec(
            c,
            params,
            id,
            idx,
            globals,
            fuel + d,
        ) == node_plus(node_spec(c, params, id, idx, globals, fuel), d),
    decreases fuel, 2int,
{
    if fuel > 0 {
        if let Some(i) = vfind(head_names(c.syn), id) {
            let head = c.syn[i].1;
            let inner = Walk { idx, data: fresh_v(head.parameters@), hard: false, globals, fuel: (fuel - 1) as nat };
            lemma_scope_plus(c, params, head.nodes@, inner, d);
            assert(plus(inner, d) == Walk {
                idx,
                data: fresh_v(head.parameters@),
                hard: false,
                globals,
                fuel: ((fuel + d) - 1) as nat,
            });
        }
    }
}

/// Walking a scope never adds steps; where it ends with steps left, it is
/// the same with more of them.
proof fn lemma_scope_plus(c: Ctx, params: Seq<(String, String)>, nodes: Seq<NodeType>, w: Walk, d: nat)
    ensures
        scope_spec(c, params, nodes, w) matches Some((_, w2)) ==> w2.fuel <= w.fuel,
        scope_spec(c, params, nodes, w) matches Some((_, w2)) && w2.fuel > 0 ==> scope_spec(c, params, nodes, plus(w, d))
            == out_plus(scope_spec(c, params, nodes, w), d),
    decreases w.fuel, 2int,
{
    lemma_loop_plus(c, scope_of(params, nodes), 0, false, w, d);
}

/// The loop of a scope never adds steps; where it ends with steps left, it
/// is the same with more of them.
proof fn lemma_loop_plus(c: Ctx, sc: Scope, node_idx: int, adv_tok: bool, w: Walk, d: nat)
    ensures
        loop_spec(c, sc, node_idx, adv_tok, w) matches Some((_, w2)) ==> w2.fuel <= w.fuel,
        loop_spec(c, sc, node_idx, adv_tok, w) matches Some((_, w2)) && w2.fuel > 0 ==> loop_spec(
            c,
            sc,
            node_idx,
            adv_tok,
            plus(w, d),
        ) == out_plus(loop_spec(c, sc, node_idx, adv_tok, w), d),
    decreases w.fuel, 1int,
{
    if !(0 <= node_idx < sc.nodes.len()) {
        lemma_post_plus(c, sc, adv_tok, w, d);
    } else if w.fuel > 0 {
        let w1 = Walk { idx: w.idx, data: w.data, hard: w.hard, globals: w.globals, fuel: (w.fuel - 1) as nat };
        assert(plus(w1, d) == Walk {
            idx: w.idx,
            data: w.data,
            hard: w.hard,
            globals: w.globals,
            fuel: ((w.fuel + d) - 1) as nat,
        });
        lemma_iter_plus(c, sc, node_idx, w1, d);
        match iter_spec(c, sc, node_idx, w1) {
            Some(Flow::Go(l, w2)) => if w2.fuel <= w1.fuel {
                lemma_loop_plus(c, sc, l.node_idx, l.adv_tok, w2, d);
            },
            Some(Flow::Break(l, w2)) => {
                lemma_post_plus(c, sc, l.adv_tok, w2, d);
            },
            _ => {},
        }
    }
}

/// Entering the nodes of a node never adds steps; where it ends with steps
/// left, it is the same with more of them.
proof fn lemma_enter_plus(c: Ctx, sc: Scope, sub: Seq<NodeType>, l: Loc, w: Walk, d: nat)
    ensures
        scope_enter_spec(c, sc, sub, l, w) matches Some(f) ==> flow_walk(f).fuel <= w.fuel,
        scope_enter_spec(c, sc, sub, l, w) matches Some(f) && flow_walk(f).fuel > 0 ==> scope_enter_spec(
            c,
            sc,
            sub,
            l,
            plus(w, d),
        ) == opt_flow_plus(scope_enter_spec(c, sc, sub, l, w), d),
    decreases w.fuel, 3int,
{
    lemma_scope_plus(c, sc.params, sub, w, d);
    if let Some((o, w2)) = scope_spec(c, sc.params, sub, w) {
        if let Ok(Some((n, act))) = o {
            lemma_back_plus(n, act, l, w2, d);
        }
    }
}

/// A node that names another head never adds steps; where it ends with
/// steps left, it is the same with more of them.
#[verifier::spinoff_prover]
#[verifier::rlimit(100)]
proof fn lemma_open_plus(c: Ctx, sc: Scope, node: Node, id: Seq<char>, recoverable: bool, l: Loc, w: Walk, d: nat)
    ensures
        open_struct_spec(c, sc, node, id, recoverable, l, w) matches Some(f) ==> flow_walk(f).fuel <= w.fuel,
        open_struct_spec(c, sc, node, id, recoverable, l, w) matches Some(f) && flow_walk(f).fuel > 0
            ==> open_struct_spec(c, sc, node, id, recoverable, l, plus(w, d)) == opt_flow_plus(
                open_struct_spec(c, sc, node, id, recoverable, l, w),
                d,
            ),
    decreases w.fuel, 4int,
{
    lemma_node_plus(c, node.arguments@, id, w.idx, w.globals, w.fuel, d);
    if let Some((res, i2, g2, f2)) = node_spec(c, node.arguments@, id, w.idx, w.globals, w.fuel) {
        let w2 = Walk { idx: i2, data: w.data, hard: w.hard, globals: g2, fuel: f2 };
        match res {
            Ok(nd) => if w2.fuel <= w.fuel {
                lemma_enter_plus(c, sc, node.nodes@, l, w2, d);
                if let Some(Flow::Go(l2, w3)) = scope_enter_spec(c, sc, node.nodes@, l, w2) {
                    lemma_check_plus(c, sc, node.arguments@, node.kind@, FoundV::Node(nd), l2, w3, d);
                    if let Some(Flow::Go(l3, w4)) = check_spec(
                        c,
                        sc,
                        node.arguments@,
                        node.kind@,
                        FoundV::Node(nd),
                        l2,
                        w3,
                    ) {
                        lemma_advance_plus(loc(l3.node_idx, false, l3.adv_node), w4, d);
                    }
                }
            },
            Err(_) => {
                lemma_advance_plus(loc(l.node_idx, false, true), at(w2, w.idx), d);
            },
        }
    }
}

/// One pass of the loop never adds steps; where it ends with steps left, it
/// is the same with more of them.
proof fn lemma_iter_plus(c: Ctx, sc: Scope, node_idx: int, w: Walk, d: nat)
    ensures
        iter_spec(c, sc, node_idx, w) matches Some(f) ==> flow_walk(f).fuel <= w.fuel,
        iter_spec(c, sc, node_idx, w) matches Some(f) && flow_walk(f).fuel > 0 ==> iter_spec(
            c,
            sc,
            node_idx,
            plus(w, d),
        ) == opt_flow_plus(iter_spec(c, sc, node_idx, w), d),
    decreases w.fuel, 5int,
{
    let l0 = loc(node_idx, true, true);
    if 0 <= node_idx < sc.nodes.len() && 0 <= w.idx < c.toks.len() {
        match sc.nodes[node_idx] {
            NodeType::Expect(node) => if node.kind@ is Text {
                lemma_open_plus(c, sc, node, node.kind@->Text_0, false, l0, w, d);
            } else {
                lemma_check_plus(c, sc, node.arguments@, node.kind@, FoundV::Tok, l0, w, d);
                if let Some(Flow::Go(l, w2)) = check_spec(c, sc, node.arguments@, node.kind@, FoundV::Tok, l0, w) {
                    lemma_advance_plus(l, w2, d);
                }
            },
            NodeType::Maybe(node) => if node.kind@ is Text {
                lemma_open_plus(c, sc, node, node.kind@->Text_0, true, l0, w, d);
            } else {
                lemma_advance_plus(loc(node_idx, false, true), w, d);
                lemma_check_plus(c, sc, node.arguments@, node.kind@, FoundV::Tok, l0, w, d);
                if let Some(Flow::Go(l, w2)) = check_spec(c, sc, node.arguments@, node.kind@, FoundV::Tok, l0, w) {
                    lemma_advance_plus(l, w2, d);
                    if let Some(Flow::Go(l3, w3)) = advance_spec(l, w2) {
                        if w3.fuel <= w.fuel {
                            lemma_enter_plus(c, sc, node.nodes@, l3, w3, d);
                        }
                    }
                }
            },
            NodeType::Command(node) => {
                lemma_advance_plus(loc(node_idx, false, true), w, d);
                if let Some(a) = arg_of(node.arguments@, "nodes"@) {
                    lemma_notempty_plus(c, sc, node_idx, node.kind@, space_parts(a), w, d);
                }
            },
            NodeType::ArgsCondition(con) => if w.idx > 0 {
                let w1 = at(w, w.idx - 1);
                lemma_advance_plus(loc(node_idx, false, true), w1, d);
                if let Some(Flow::Go(l2, w2)) = advance_spec(loc(node_idx, false, true), w1) {
                    if w2.fuel <= w.fuel {
                        lemma_enter_plus(c, sc, con.nodes@, l2, w2, d);
                        if let Some(Flow::Go(l3, w3)) = scope_enter_spec(c, sc, con.nodes@, l2, w2) {
                            lemma_advance_plus(loc(l3.node_idx, false, false), w3, d);
                        }
                    }
                }
            },
        }
    }
}

/// A walk that reads the head `id` and ends with steps of its budget left
/// comes out the same, node, place and global parts, under any larger
/// budget, with as many more steps left: the budget decides only walks that
/// use it up.
pub proof fn law_budget_left_unused(
    c: Ctx,
    params: Seq<(String, String)>,
    id: Seq<char>,
    idx: int,
    globals: Seq<(Seq<char>, crate::walker::PartV)>,
    fuel: nat,
    more: nat,
)
    requires
        node_spec(c, params, id, idx, globals, fuel) matches Some((_, _, _, left)) && left > 0,
    ensures
        node_spec(c, params, id, idx, globals, fuel + more) == node_plus(node_spec(c, params, id, idx, globals, fuel), more),
{
    lemma_node_plus(c, params, id, idx, globals, fuel, more);
}

} // verus!
