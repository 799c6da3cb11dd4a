//! Expressions: a flat list of values and operators becomes a tree by the
//! order of operations, and references are read off the parse tree.
use vstd::prelude::*;
use crate::ast::{ExprNode, Ref, TreeTransformError, ValueType};
use crate::lexer::{Line, Operators, TokenView, Tokens};
use crate::tree_reader::{arr, has_arr, has_val, step_inside_arr, step_inside_val, val};
use crate::tree_walker::Node;
use crate::types::ErrType;

verus! {

/// The operators from the one that binds loosest to the one that binds
/// tightest: `|| && >= <= != == > < - + * / %`.
pub open spec fn order_ops() -> Seq<Operators> {
    seq![
        Operators::Or,
        Operators::And,
        Operators::MoreEq,
        Operators::LessEq,
        Operators::NotEqual,
        Operators::DoubleEq,
        Operators::AngleBracket(true),
        Operators::AngleBracket(false),
        Operators::Minus,
        Operators::Plus,
        Operators::Star,
        Operators::Slash,
        Operators::Mod,
    ]
}

/// The `k`-th operator in the order of operations.
fn order_op(k: usize) -> (r: Operators)
    requires
        k < 13,
    ensures
        r == order_ops()[k as int],
{
    match k {
        0 => Operators::Or,
        1 => Operators::And,
        2 => Operators::MoreEq,
        3 => Operators::LessEq,
        4 => Operators::NotEqual,
        5 => Operators::DoubleEq,
        6 => Operators::AngleBracket(true),
        7 => Operators::AngleBracket(false),
        8 => Operators::Minus,
        9 => Operators::Plus,
        10 => Operators::Star,
        11 => Operators::Slash,
        _ => Operators::Mod,
    }
}

/// Whether `v` is the operator `op`.
pub open spec fn is_op(v: ValueType, op: Operators) -> bool {
    v matches ValueType::Operator(o, _) && o == op
}

/// The last place in `1..=i` where `list` holds the operator `op`.
pub open spec fn last_op(list: Seq<ValueType>, op: Operators, i: int) -> Option<int>
    decreases i,
{
    if i <= 0 {
        None
    } else if is_op(list[i], op) {
        Some(i)
    } else {
        last_op(list, op, i - 1)
    }
}

/// Where the list is split: the last place after the first that holds the
/// loosest operator of the order from the `k`-th on that occurs there.
pub open spec fn split_at(list: Seq<ValueType>, k: int) -> Option<(int, Operators)>
    decreases 13 - k,
{
    if k >= 13 || k < 0 {
        None
    } else {
        match last_op(list, order_ops()[k], list.len() - 1) {
            Some(i) => Some((i, order_ops()[k])),
            None => split_at(list, k + 1),
        }
    }
}

/// The expression tree of a list of values and operators, and what is left
/// of the list: the list split at its loosest operator (the last one of its
/// kind), each side made a tree in turn.
pub open spec fn tree_of(list: Seq<ValueType>) -> (Result<ValueType, TreeTransformError>, Seq<ValueType>)
    decreases list.len(),
{
    if list.len() == 0 {
        (Ok(ValueType::Blank), list)
    } else if list.len() == 1 {
        match list[0] {
            ValueType::Operator(_, line) => (Err(TreeTransformError::ExcessOperator(line)), list),
            _ => (Ok(list[0]), seq![]),
        }
    } else {
        match split_at(list, 0) {
            None => (Err(TreeTransformError::NotImplementedCuzLazy), list),
            Some((i, op)) => if !(0 < i < list.len()) {
                (Err(TreeTransformError::NotImplementedCuzLazy), list)
            } else {
                let line = list[i]->Operator_1;
                if i == list.len() - 1 {
                    (Err(TreeTransformError::ExcessOperator(line)), list)
                } else {
                    let (lr, lfinal) = tree_of(list.subrange(0, i));
                    match lr {
                        Err(e) => (Err(e), lfinal),
                        Ok(lv) => {
                            let (rr, _) = tree_of(list.subrange(i + 1, list.len() as int));
                            match rr {
                                Err(e) => (Err(e), lfinal),
                                Ok(rv) => (
                                    Ok(
                                        ValueType::Expression(
                                            Box::new(
                                                ExprNode {
                                                    left: Some(lv),
                                                    right: Some(rv),
                                                    operator: Some(op),
                                                    line,
                                                    is_root: false,
                                                },
                                            ),
                                        ),
                                    ),
                                    lfinal,
                                ),
                            }
                        },
                    }
                }
            },
        }
    }
}

/// `last_op` finds a place in `1..=i` that holds the operator.
proof fn lemma_last_op(list: Seq<ValueType>, op: Operators, i: int)
    ensures
        last_op(list, op, i) matches Some(j) ==> 0 < j <= i && is_op(list[j], op),
    decreases i,
{
    if i > 0 && !is_op(list[i], op) {
        lemma_last_op(list, op, i - 1);
    }
}

/// `split_at` finds a place after the first, before the end, that holds its operator.
proof fn lemma_split_at(list: Seq<ValueType>, k: int)
    ensures
        split_at(list, k) matches Some((i, op)) ==> 0 < i < list.len() && is_op(list[i], op),
    decreases 13 - k,
{
    if 0 <= k < 13 {
        lemma_last_op(list, order_ops()[k], list.len() - 1);
        lemma_split_at(list, k + 1);
    }
}

/// How loosely an operator binds in an expression: `||` loosest, then `&&`,
/// `>=`, `<=`, `!=`, `==`, `>`, `<`, `-`, `+`, `*`, `/`, and `%` tightest.
/// Other operators take no part in the order.
pub open spec fn binding(op: Operators) -> Option<int> {
    match op {
        Operators::Or => Some(0),
        Operators::And => Some(1),
        Operators::MoreEq => Some(2),
        Operators::LessEq => Some(3),
        Operators::NotEqual => Some(4),
        Operators::DoubleEq => Some(5),
        Operators::AngleBracket(true) => Some(6),
        Operators::AngleBracket(false) => Some(7),
        Operators::Minus => Some(8),
        Operators::Plus => Some(9),
        Operators::Star => Some(10),
        Operators::Slash => Some(11),
        Operators::Mod => Some(12),
        _ => None,
    }
}

/// The split chosen from the `k`-th operator of the order on binds no
/// tighter than any operator of the order from the `k`-th on that stands
/// after the first place.
proof fn lemma_split_loosest(list: Seq<ValueType>, k: int, j: int)
    requires
        0 <= k,
        0 < j < list.len(),
        list[j] matches ValueType::Operator(o, _) && binding(o) matches Some(b) && k <= b,
    ensures
        split_at(list, k) matches Some((_, op)) && binding(op) matches Some(bo) && bo <= binding(
            list[j]->Operator_0,
        )->0,
    decreases 13 - k,
{
    let o = list[j]->Operator_0;
    let b = binding(o)->0;
    assert(order_ops()[b] == o);
    assert(forall|t: int| 0 <= t < 13 ==> binding(#[trigger] order_ops()[t]) == Some(t));
    lemma_last_op_finds(list, o, list.len() - 1, j);
    if k < b {
        if last_op(list, order_ops()[k], list.len() - 1) is None {
            lemma_split_loosest(list, k + 1, j);
        }
    }
}

/// `last_op` finds a place wherever the operator stands in `1..=i`.
proof fn lemma_last_op_finds(list: Seq<ValueType>, op: Operators, i: int, j: int)
    requires
        0 < j <= i,
        is_op(list[j], op),
    ensures
        last_op(list, op, i) is Some,
    decreases i,
{
    if !is_op(list[i], op) {
        lemma_last_op_finds(list, op, i - 1, j);
    }
}

/// The operator at the root of an expression tree, if it has one.
pub open spec fn root_op(v: ValueType) -> Option<Operators> {
    match v {
        ValueType::Expression(e) => e.operator,
        _ => None,
    }
}

/// Whether `op` binds no tighter than any operator of the order that stands
/// in `list` after its first place.
pub open spec fn loosest_in(list: Seq<ValueType>, op: Operators) -> bool {
    &&& binding(op) is Some
    &&& forall|j: int|
        0 < j < list.len() && (#[trigger] list[j] matches ValueType::Operator(o, _) && binding(o) is Some)
            ==> binding(op)->0 <= binding(list[j]->Operator_0)->0
}

/// In the tree built from a list of two or more items, the root operator
/// binds loosest: no operator of the order that stands in the list after
/// its first place binds looser.  So `a || b && c` is `a || (b && c)`:
/// where `||` stands after the first place, the root is `||`.
pub proof fn law_root_binds_loosest(list: Seq<ValueType>)
    ensures
        list.len() >= 2 && tree_of(list).0 is Ok ==> (root_op(tree_of(list).0->Ok_0) matches Some(op)
            && loosest_in(list, op)),
        list.len() >= 2 && tree_of(list).0 is Ok && (exists|j: int|
            0 < j < list.len() && #[trigger] is_op(list[j], Operators::Or)) ==> root_op(tree_of(list).0->Ok_0)
            == Some(Operators::Or),
{
    if list.len() >= 2 && tree_of(list).0 is Ok {
        lemma_split_at(list, 0);
        let (i, op) = split_at(list, 0)->0;
        assert(root_op(tree_of(list).0->Ok_0) == Some(op));
        assert(forall|t: int| 0 <= t < 13 ==> binding(#[trigger] order_ops()[t]) == Some(t));
        lemma_split_op(list, 0);
        assert forall|j: int|
            0 < j < list.len() && (#[trigger] list[j] matches ValueType::Operator(o, _) && binding(o) is Some)
                implies binding(op)->0 <= binding(list[j]->Operator_0)->0 by {
            lemma_split_loosest(list, 0, j);
        }
        if exists|j: int| 0 < j < list.len() && #[trigger] is_op(list[j], Operators::Or) {
            let j = choose|j: int| 0 < j < list.len() && #[trigger] is_op(list[j], Operators::Or);
            lemma_split_loosest(list, 0, j);
        }
    }
}

/// The operator at which `split_at` splits is one of the order.
proof fn lemma_split_op(list: Seq<ValueType>, k: int)
    requires
        0 <= k,
    ensures
        split_at(list, k) matches Some((_, op)) ==> exists|t: int| k <= t < 13 && op == #[trigger] order_ops()[t],
    decreases 13 - k,
{
    if k < 13 {
        lemma_split_op(list, k + 1);
        if last_op(list, order_ops()[k], list.len() - 1) is Some {
            assert(order_ops()[k] == order_ops()[k]);
        }
    }
}

/// Where the list is split, found as `split_at` says.
fn find_split(list: &Vec<ValueType>) -> (r: Option<(usize, Operators)>)
    requires
        list@.len() >= 2,
    ensures
        match r {
            Some((i, op)) => split_at(list@, 0) == Some((i as int, op)),
            None => split_at(list@, 0) is None,
        },
{
    let n = list.len();
    let mut k: usize = 0;
    while k < 13
        invariant
            k <= 13,
            n == list@.len(),
            n >= 2,
            split_at(list@, 0) == split_at(list@, k as int),
        decreases 13 - k,
    {
        let op = order_op(k);
        let mut i: usize = n - 1;
        while i > 0
            invariant
                i < n,
                n == list@.len(),
                k < 13,
                op == order_ops()[k as int],
                split_at(list@, 0) == split_at(list@, k as int),
                last_op(list@, op, n - 1) == last_op(list@, op, i as int),
            decreases i,
        {
            match &list[i] {
                ValueType::Operator(o, _) => {
                    if *o == op {
                        return Some((i, op));
                    }
                },
                _ => {},
            }
            i = i - 1;
        }
        k = k + 1;
    }
    None
}

/// Turns a list of values and operators into an expression tree, by the
/// order of operations; the list is used up as `tree_of` says.
pub fn list_into_tree(list: &mut Vec<ValueType>) -> (r: Result<ValueType, TreeTransformError>)
    ensures
        (r, final(list)@) == tree_of(old(list)@),
    decreases old(list)@.len(),
{
    let n = list.len();
    if n == 0 {
        return Ok(ValueType::Blank);
    }
    if n == 1 {
        if let ValueType::Operator(_, line) = &list[0] {
            return Err(TreeTransformError::ExcessOperator(*line));
        }
        let v = list.pop().unwrap();
        assert(list@ =~= Seq::<ValueType>::empty());
        return Ok(v);
    }
    proof {
        lemma_split_at(list@, 0);
    }
    match find_split(list) {
        None => Err(TreeTransformError::NotImplementedCuzLazy),
        Some((i, op)) => {
            let line = match &list[i] {
                ValueType::Operator(_, l) => *l,
                _ => Line::from_pos((0, 0)),
            };
            if i == n - 1 {
                return Err(TreeTransformError::ExcessOperator(line));
            }
            let ghost whole = list@;
            list.remove(i);
            let mut right = list.split_off(i);
            assert(list@ =~= whole.subrange(0, i as int));
            assert(right@ =~= whole.subrange(i + 1, whole.len() as int));
            let left_res = list_into_tree(list);
            match left_res {
                Err(e) => Err(e),
                Ok(left) => {
                    let right_res = list_into_tree(&mut right);
                    match right_res {
                        Err(e) => Err(e),
                        Ok(rv) => Ok(
                            ValueType::Expression(
                                Box::new(
                                    ExprNode {
                                        left: Some(left),
                                        right: Some(rv),
                                        operator: Some(op),
                                        line,
                                        is_root: false,
                                    },
                                ),
                            ),
                        ),
                    }
                },
            }
        },
    }
}

/// The references that a token marks: `&` one, `&&` two.
pub open spec fn amp_weight(t: TokenView) -> nat {
    if t == TokenView::Operator(Operators::Ampersant) {
        1
    } else if t == TokenView::Operator(Operators::And) {
        2
    } else {
        0
    }
}

/// The dereferences that a token marks: `*` one.
pub open spec fn star_weight(t: TokenView) -> nat {
    if t == TokenView::Operator(Operators::Star) {
        1
    } else {
        0
    }
}

/// The references that the tokens of `s` mark together.
pub open spec fn amps(s: Seq<Node>) -> nat
    decreases s.len(),
{
    if s.len() == 0 {
        0
    } else {
        amps(s.drop_last()) + amp_weight(s.last().name@)
    }
}

/// The dereferences that the tokens of `s` mark together.
pub open spec fn stars(s: Seq<Node>) -> nat
    decreases s.len(),
{
    if s.len() == 0 {
        0
    } else {
        stars(s.drop_last()) + star_weight(s.last().name@)
    }
}

/// The counts of a prefix are at most those of the whole.
proof fn lemma_counts_prefix(s: Seq<Node>, k: int)
    requires
        0 <= k <= s.len(),
    ensures
        amps(s.take(k)) <= amps(s),
        stars(s.take(k)) <= stars(s),
    decreases s.len() - k,
{
    if k < s.len() {
        lemma_counts_prefix(s, k + 1);
        assert(s.take(k + 1).drop_last() =~= s.take(k));
    } else {
        assert(s.take(k) =~= s);
    }
}

/// The tokens of the part `tokens` within the part `ref` of a node.
pub open spec fn ref_tokens(n: Node) -> Seq<Node> {
    arr(val(n, "ref"@), "tokens"@)
}

/// What the references and dereferences of a value come to: the greater
/// count less the smaller one.
pub open spec fn ref_of(a: nat, s: nat) -> Ref {
    if a == s {
        Ref::NoRef
    } else if a > s {
        Ref::Reference((a - s) as usize)
    } else {
        Ref::Dereferencing((s - a) as usize)
    }
}

/// Whether a value is referenced or dereferenced, and how many times.
pub fn get_ref_type(node: &Node) -> (r: Ref)
    requires
        has_val(*node, "ref"@),
        has_arr(val(*node, "ref"@), "tokens"@),
        amps(ref_tokens(*node)) <= usize::MAX,
        stars(ref_tokens(*node)) <= usize::MAX,
    ensures
        r == ref_of(amps(ref_tokens(*node)), stars(ref_tokens(*node))),
{
    let inner = step_inside_val(node, "ref");
    let toks = step_inside_arr(inner, "tokens");
    let ghost s = toks@;
    let mut ampersants: usize = 0;
    let mut star_count: usize = 0;
    let mut i: usize = 0;
    while i < toks.len()
        invariant
            s == toks@,
            s == ref_tokens(*node),
            i <= s.len(),
            ampersants == amps(s.take(i as int)),
            star_count == stars(s.take(i as int)),
            amps(s) <= usize::MAX,
            stars(s) <= usize::MAX,
        decreases s.len() - i,
    {
        proof {
            assert(s.take(i + 1).drop_last() =~= s.take(i as int));
            lemma_counts_prefix(s, i + 1);
        }
        match &toks[i].name {
            Tokens::Operator(Operators::Ampersant) => {
                ampersants = ampersants + 1;
            },
            Tokens::Operator(Operators::Star) => {
                star_count = star_count + 1;
            },
            Tokens::Operator(Operators::And) => {
                ampersants = ampersants + 2;
            },
            _ => {},
        }
        i = i + 1;
    }
    assert(s.take(s.len() as int) =~= s);
    if ampersants == star_count {
        return Ref::NoRef;
    }
    if ampersants > star_count {
        Ref::Reference(ampersants - star_count)
    } else {
        Ref::Dereferencing(star_count - ampersants)
    }
}

/// The operator of a node named `operator`, or of a node not named by a word.
pub fn try_get_op(node: &Node, _errors: &mut Vec<ErrType>) -> (r: Option<Operators>)
    requires
        !(node.name@ is Text && node.name@ != TokenView::Text("operator"@)) ==> has_val(*node, "op"@),
    ensures
        node.name@ is Text && node.name@ != TokenView::Text("operator"@) ==> r is None,
        !(node.name@ is Text && node.name@ != TokenView::Text("operator"@)) ==> r == match val(
            *node,
            "op"@,
        ).name@ {
            TokenView::Operator(op) => Some(op),
            _ => None,
        },
        final(_errors)@ == old(_errors)@,
{
    if let Tokens::Text(txt) = &node.name {
        if !crate::lexer::text_eq(txt.as_str(), "operator") {
            return None;
        }
    }
    if let Tokens::Operator(op) = &step_inside_val(node, "op").name {
        return Some(*op);
    }
    None
}

} // verus!
