//! Reading the parts of the nodes that the parser builds: a part is found by
//! its name, and holds a single node or a list of nodes.
use vstd::prelude::*;
use crate::context::{find_key, has_key, key_at, keys_unique, lemma_value_of, value_of};
use crate::lexer::{text_eq, Operators, TokenView, Tokens};
use crate::tree_walker::{ArgNodeType, Node};
use crate::types::{ErrType, GenericDecl, NestedIdent};

verus! {

/// Whether `n` has a part named `k`, its parts having distinct names.
pub open spec fn has_part(n: Node, k: Seq<char>) -> bool {
    keys_unique(n.nodes@) && has_key(n.nodes@, k)
}

/// The part of `n` named `k`.
pub open spec fn part(n: Node, k: Seq<char>) -> ArgNodeType {
    value_of(n.nodes@, k)
}

/// Whether the part of `n` named `k` is a single node.
pub open spec fn has_val(n: Node, k: Seq<char>) -> bool {
    has_part(n, k) && part(n, k) is Value
}

/// The single node of the part of `n` named `k`.
pub open spec fn val(n: Node, k: Seq<char>) -> Node {
    part(n, k)->Value_0
}

/// Whether the part of `n` named `k` is a list of nodes.
pub open spec fn has_arr(n: Node, k: Seq<char>) -> bool {
    has_part(n, k) && part(n, k) is Array
}

/// The nodes of the part of `n` named `k`.
pub open spec fn arr(n: Node, k: Seq<char>) -> Seq<Node> {
    part(n, k)->Array_0@
}

/// The place of the part named `ident`, where there is one.
fn find_part(node: &Node, ident: &str) -> (r: Option<usize>)
    requires
        keys_unique(node.nodes@),
    ensures
        r is None <==> !has_part(*node, ident@),
        r matches Some(i) ==> i < node.nodes@.len() && node.nodes@[i as int].1 == part(*node, ident@),
{
    let r = find_key(&node.nodes, ident);
    if let Some(i) = r {
        proof {
            lemma_value_of(node.nodes@, ident@, i as int);
        }
    }
    r
}

/// The single node of the part named `ident`.
pub fn step_inside_val<'a>(node: &'a Node, ident: &str) -> (r: &'a Node)
    requires
        has_val(*node, ident@),
    ensures
        *r == val(*node, ident@),
{
    let i = find_part(node, ident).unwrap();
    node.nodes[i].1.get_value()
}

/// The single node of the part named `ident`, where there is such a part.
pub fn try_step_inside_val<'a>(node: &'a Node, ident: &str) -> (r: Option<&'a Node>)
    requires
        keys_unique(node.nodes@),
        has_part(*node, ident@) ==> part(*node, ident@) is Value,
    ensures
        r is Some <==> has_part(*node, ident@),
        r matches Some(v) ==> *v == val(*node, ident@),
{
    match find_part(node, ident) {
        Some(i) => Some(node.nodes[i].1.get_value()),
        None => None,
    }
}

/// The nodes of the part named `ident`.
pub fn step_inside_arr<'a>(node: &'a Node, ident: &str) -> (r: &'a Vec<Node>)
    requires
        has_arr(*node, ident@),
    ensures
        r@ == arr(*node, ident@),
{
    let i = find_part(node, ident).unwrap();
    node.nodes[i].1.get_array()
}

/// The nodes of the part named `ident`, where there is such a part.
pub fn try_step_inside_arr<'a>(node: &'a Node, ident: &str) -> (r: Option<&'a Vec<Node>>)
    requires
        keys_unique(node.nodes@),
        has_part(*node, ident@) ==> part(*node, ident@) is Array,
    ensures
        r is Some <==> has_part(*node, ident@),
        r matches Some(v) ==> v@ == arr(*node, ident@),
{
    match find_part(node, ident) {
        Some(i) => Some(node.nodes[i].1.get_array()),
        None => None,
    }
}

/// The token of the single node of the part named `ident`.
pub fn get_token<'a>(node: &'a Node, ident: &str) -> (r: &'a Tokens)
    requires
        has_val(*node, ident@),
    ensures
        *r == val(*node, ident@).name,
{
    &step_inside_val(node, ident).name
}

/// The operator token of the part `op`.
pub fn get_operator(node: &Node) -> (r: Tokens)
    requires
        has_val(*node, "op"@),
    ensures
        r@ == val(*node, "op"@).name@,
{
    step_inside_val(node, "op").name.copy()
}

/// The node that holds the name of `n`: the part `identifier` of its part `identifier`.
pub open spec fn ident_node(n: Node) -> Node {
    val(val(n, "identifier"@), "identifier"@)
}

/// Whether `n` is named by a word.
pub open spec fn has_ident(n: Node) -> bool {
    &&& has_val(n, "identifier"@)
    &&& has_val(val(n, "identifier"@), "identifier"@)
    &&& ident_node(n).name@ is Text
}

/// The name of a node.
pub fn get_ident(node: &Node) -> (r: String)
    requires
        has_ident(*node),
    ensures
        TokenView::Text(r@) == ident_node(*node).name@,
{
    match &step_inside_val(step_inside_val(node, "identifier"), "identifier").name {
        Tokens::Text(txt) => txt.clone(),
        _ => vstd::pervasive::unreached(),
    }
}

/// The name of a node, where it has one.
pub fn try_get_ident(node: &Node) -> (r: Option<String>)
    requires
        has_val(*node, "identifier"@),
        keys_unique(val(*node, "identifier"@).nodes@),
        has_part(val(*node, "identifier"@), "identifier"@) ==> part(
            val(*node, "identifier"@),
            "identifier"@,
        ) is Value,
    ensures
        r is Some <==> (has_part(val(*node, "identifier"@), "identifier"@) && ident_node(
            *node,
        ).name@ is Text),
        r matches Some(s) ==> TokenView::Text(s@) == ident_node(*node).name@,
{
    if let Some(val) = try_step_inside_val(step_inside_val(node, "identifier"), "identifier") {
        if let Tokens::Text(txt) = &val.name {
            return Some(txt.clone());
        }
    }
    None
}

/// The references that a token of a type marks: one for `&`, two for `&&`.
pub open spec fn ref_weight(t: TokenView) -> nat {
    if t == TokenView::Operator(Operators::Ampersant) {
        1
    } else if t == TokenView::Operator(Operators::And) {
        2
    } else {
        0
    }
}

/// The references that the tokens of `s` mark together.
pub open spec fn refs_of(s: Seq<Node>) -> nat
    decreases s.len(),
{
    if s.len() == 0 {
        0
    } else {
        refs_of(s.drop_last()) + ref_weight(s.last().name@)
    }
}

/// The number of references of a type: its part `refs`, within its part
/// `ref`, where there is one.
pub fn count_refs(node: &Node) -> (r: usize)
    requires
        has_val(*node, "ref"@),
        keys_unique(val(*node, "ref"@).nodes@),
        has_part(val(*node, "ref"@), "refs"@) ==> part(val(*node, "ref"@), "refs"@) is Array,
        has_part(val(*node, "ref"@), "refs"@) ==> refs_of(arr(val(*node, "ref"@), "refs"@))
            <= usize::MAX,
    ensures
        r == (if has_part(val(*node, "ref"@), "refs"@) {
            refs_of(arr(val(*node, "ref"@), "refs"@))
        } else {
            0
        }),
{
    let mut refs: usize = 0;
    if let Some(list) = try_step_inside_arr(step_inside_val(node, "ref"), "refs") {
        let ghost s = list@;
        let mut i: usize = 0;
        while i < list.len()
            invariant
                s == list@,
                i <= s.len(),
                refs == refs_of(s.take(i as int)),
                refs_of(s) <= usize::MAX,
            decreases s.len() - i,
        {
            proof {
                assert(s.take(i + 1).drop_last() =~= s.take(i as int));
                lemma_refs_prefix(s, i + 1);
            }
            match &list[i].name {
                Tokens::Operator(Operators::Ampersant) => {
                    refs = refs + 1;
                },
                Tokens::Operator(Operators::And) => {
                    refs = refs + 2;
                },
                _ => {},
            }
            i = i + 1;
        }
        assert(s.take(s.len() as int) =~= s);
    }
    refs
}

/// The references of a prefix are at most those of the whole.
proof fn lemma_refs_prefix(s: Seq<Node>, k: int)
    requires
        0 <= k <= s.len(),
    ensures
        refs_of(s.take(k)) <= refs_of(s),
    decreases s.len() - k,
{
    if k < s.len() {
        lemma_refs_prefix(s, k + 1);
        assert(s.take(k + 1).drop_last() =~= s.take(k));
    } else {
        assert(s.take(k) =~= s);
    }
}

/// Whether the node is marked public: its part `public` is the word `pub`.
pub fn public(node: &Node) -> (r: bool)
    requires
        has_val(*node, "public"@),
    ensures
        r == (val(*node, "public"@).name@ == TokenView::Text("pub"@)),
{
    if let Tokens::Text(txt) = &step_inside_val(node, "public").name {
        return text_eq(txt.as_str(), "pub");
    }
    false
}

/// The label of a loop: the string of the part `identifier` within its part
/// `identifier`, where that part is the word `loop_ident`.
pub fn get_loop_ident(node: &Node) -> (r: Option<String>)
    requires
        has_val(*node, "identifier"@),
        val(*node, "identifier"@).name@ == TokenView::Text("loop_ident"@) ==> has_val(
            val(*node, "identifier"@),
            "identifier"@,
        ),
    ensures
        r is Some <==> (val(*node, "identifier"@).name@ == TokenView::Text("loop_ident"@)
            && ident_node(*node).name@ is String),
        r matches Some(s) ==> TokenView::String(s@) == ident_node(*node).name@,
{
    if let Tokens::Text(txt) = &step_inside_val(node, "identifier").name {
        if text_eq(txt.as_str(), "loop_ident") {
            if let Tokens::String(txt) = &step_inside_val(
                step_inside_val(node, "identifier"),
                "identifier",
            ).name {
                return Some(txt.clone());
            }
        }
    }
    None
}

/// The label that a `break` names: the string of its part `identifier`.
pub fn get_break_ident(node: &Node) -> (r: Option<String>)
    requires
        has_val(*node, "identifier"@),
    ensures
        r is Some <==> val(*node, "identifier"@).name@ is String,
        r matches Some(s) ==> TokenView::String(s@) == val(*node, "identifier"@).name@,
{
    if let Tokens::String(txt) = &step_inside_val(node, "identifier").name {
        return Some(txt.clone());
    }
    None
}

/// Whether `n` is a path: a list `nodes` of parts, each with a word as its
/// `identifier`.
pub open spec fn is_path(n: Node) -> bool {
    &&& has_arr(n, "nodes"@)
    &&& forall|i: int|
        0 <= i < arr(n, "nodes"@).len() ==> has_val(#[trigger] arr(n, "nodes"@)[i], "identifier"@)
            && val(arr(n, "nodes"@)[i], "identifier"@).name@ is Text
}

/// The words of a path.
pub open spec fn path_of(n: Node) -> Seq<Seq<char>> {
    arr(n, "nodes"@).map_values(|p: Node| val(p, "identifier"@).name@->Text_0)
}

/// The words of a path, such as `std::io`.
pub fn get_nested_ident(node: &Node, _errors: &mut Vec<ErrType>) -> (r: NestedIdent)
    requires
        is_path(*node),
    ensures
        r@.map_values(|s: String| s@) == path_of(*node),
        final(_errors)@ == old(_errors)@,
{
    let parts = step_inside_arr(node, "nodes");
    let mut result: Vec<String> = Vec::new();
    let mut i: usize = 0;
    while i < parts.len()
        invariant
            parts@ == arr(*node, "nodes"@),
            is_path(*node),
            i <= parts@.len(),
            result@.map_values(|s: String| s@) == path_of(*node).take(i as int),
        decreases parts@.len() - i,
    {
        assert(has_val(parts@[i as int], "identifier"@));
        match &step_inside_val(&parts[i], "identifier").name {
            Tokens::Text(txt) => {
                let ghost before = result@;
                assert(path_of(*node)[i as int] == txt@);
                result.push(txt.clone());
                assert(result@.map_values(|s: String| s@) =~= before.map_values(|s: String| s@).push(
                    txt@,
                ));
                assert(path_of(*node).take(i + 1) =~= path_of(*node).take(i as int).push(
                    path_of(*node)[i as int],
                ));
            },
            _ => {
                assert(false);
            },
        }
        i = i + 1;
    }
    assert(path_of(*node).take(parts@.len() as int) =~= path_of(*node));
    result
}

/// Whether each node of `s` is a path.
pub open spec fn all_paths(s: Seq<Node>) -> bool {
    forall|i: int| 0 <= i < s.len() ==> is_path(#[trigger] s[i])
}

/// The words of each path in a list.
fn paths(list: &Vec<Node>, errors: &mut Vec<ErrType>) -> (r: Vec<NestedIdent>)
    requires
        all_paths(list@),
    ensures
        r@.len() == list@.len(),
        forall|i: int| 0 <= i < list@.len() ==> (#[trigger] r@[i])@.map_values(|s: String| s@) == path_of(list@[i]),
        final(errors)@ == old(errors)@,
{
    let mut result: Vec<NestedIdent> = Vec::new();
    let mut i: usize = 0;
    while i < list.len()
        invariant
            all_paths(list@),
            i <= list@.len(),
            result@.len() == i,
            forall|k: int| 0 <= k < i ==> (#[trigger] result@[k])@.map_values(|s: String| s@) == path_of(list@[k]),
            errors@ == old(errors)@,
        decreases list@.len() - i,
    {
        assert(is_path(list@[i as int]));
        let p = get_nested_ident(&list[i], errors);
        result.push(p);
        i = i + 1;
    }
    result
}

/// The traits that a node lists in its part `traits`, each given by its words.
pub fn get_traits(node: &Node, errors: &mut Vec<ErrType>) -> (r: Vec<NestedIdent>)
    requires
        has_arr(*node, "traits"@),
        all_paths(arr(*node, "traits"@)),
    ensures
        r@.len() == arr(*node, "traits"@).len(),
        forall|i: int| 0 <= i < r@.len() ==> (#[trigger] r@[i])@.map_values(|s: String| s@) == path_of(
            arr(*node, "traits"@)[i],
        ),
        final(errors)@ == old(errors)@,
{
    paths(step_inside_arr(node, "traits"), errors)
}

/// Whether `g` declares a generic parameter: a name, and traits that are paths.
pub open spec fn is_generic_decl(g: Node) -> bool {
    has_ident(g) && has_arr(g, "traits"@) && all_paths(arr(g, "traits"@))
}

/// The generic parameters that a node declares: the list `identifiers` of its
/// part `generic`, where there is one.
pub open spec fn generic_decls(n: Node) -> Seq<Node> {
    if has_part(val(n, "generic"@), "identifiers"@) {
        arr(val(n, "generic"@), "identifiers"@)
    } else {
        seq![]
    }
}

/// The generic parameters that a node declares, with the traits each must have.
pub fn get_generics_decl(node: &Node, errors: &mut Vec<ErrType>) -> (r: Vec<GenericDecl>)
    requires
        has_val(*node, "generic"@),
        keys_unique(val(*node, "generic"@).nodes@),
        has_part(val(*node, "generic"@), "identifiers"@) ==> part(
            val(*node, "generic"@),
            "identifiers"@,
        ) is Array,
        forall|i: int|
            0 <= i < generic_decls(*node).len() ==> is_generic_decl(#[trigger] generic_decls(*node)[i]),
    ensures
        r@.len() == generic_decls(*node).len(),
        forall|i: int|
            0 <= i < r@.len() ==> TokenView::Text((#[trigger] r@[i]).identifier@) == ident_node(
                generic_decls(*node)[i],
            ).name@ && r@[i].traits@.len() == arr(generic_decls(*node)[i], "traits"@).len()
                && forall|j: int|
                0 <= j < r@[i].traits@.len() ==> (#[trigger] r@[i].traits@[j])@.map_values(
                    |s: String| s@,
                ) == path_of(arr(generic_decls(*node)[i], "traits"@)[j]),
        final(errors)@ == old(errors)@,
{
    let mut generics: Vec<GenericDecl> = Vec::new();
    if let Some(list) = try_step_inside_arr(step_inside_val(node, "generic"), "identifiers") {
        let mut i: usize = 0;
        while i < list.len()
            invariant
                list@ == generic_decls(*node),
                forall|k: int| 0 <= k < list@.len() ==> is_generic_decl(#[trigger] list@[k]),
                i <= list@.len(),
                generics@.len() == i,
                forall|k: int|
                    0 <= k < i ==> TokenView::Text((#[trigger] generics@[k]).identifier@) == ident_node(
                        list@[k],
                    ).name@ && generics@[k].traits@.len() == arr(list@[k], "traits"@).len()
                        && forall|j: int|
                        0 <= j < generics@[k].traits@.len() ==> (#[trigger] generics@[k].traits@[j])@.map_values(
                            |s: String| s@,
                        ) == path_of(arr(list@[k], "traits"@)[j]),
                errors@ == old(errors)@,
            decreases list@.len() - i,
        {
            assert(is_generic_decl(list@[i as int]));
            let traits = paths(step_inside_arr(&list[i], "traits"), errors);
            let identifier = get_ident(&list[i]);
            generics.push(GenericDecl { identifier, traits });
            i = i + 1;
        }
    }
    generics
}

} // verus!
