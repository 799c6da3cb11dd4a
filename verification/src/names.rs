//! The order of names: texts compared character by character, as Rust
//! compares strings (their UTF-8 bytes order as their characters do).
use vstd::prelude::*;

verus! {

/// Whether `a` comes before `b`: at the first place where they differ `a`
/// has the smaller character, or `a` is a proper prefix of `b`.
pub open spec fn text_before(a: Seq<char>, b: Seq<char>) -> bool
    decreases a.len(),
{
    if a.len() == 0 {
        b.len() > 0
    } else if b.len() == 0 {
        false
    } else if a[0] != b[0] {
        a[0] < b[0]
    } else {
        text_before(a.drop_first(), b.drop_first())
    }
}

/// No text comes before itself.
pub proof fn lemma_before_irreflexive(a: Seq<char>)
    ensures
        !text_before(a, a),
    decreases a.len(),
{
    if a.len() > 0 {
        lemma_before_irreflexive(a.drop_first());
    }
}

/// Of two different texts, one comes before the other.
pub proof fn lemma_before_total(a: Seq<char>, b: Seq<char>)
    requires
        a != b,
    ensures
        text_before(a, b) || text_before(b, a),
    decreases a.len(),
{
    if a.len() > 0 && b.len() > 0 && a[0] == b[0] {
        if a.drop_first() == b.drop_first() {
            assert(a =~= seq![a[0]] + a.drop_first());
            assert(b =~= seq![b[0]] + b.drop_first());
        }
        lemma_before_total(a.drop_first(), b.drop_first());
    } else if a.len() == 0 && b.len() == 0 {
        assert(a =~= b);
    }
}

/// Two texts do not come before each other.
pub proof fn lemma_before_asymmetric(a: Seq<char>, b: Seq<char>)
    requires
        text_before(a, b),
    ensures
        !text_before(b, a),
    decreases a.len(),
{
    if a.len() > 0 && b.len() > 0 && a[0] == b[0] {
        lemma_before_asymmetric(a.drop_first(), b.drop_first());
    }
}

/// The order is transitive.
pub proof fn lemma_before_transitive(a: Seq<char>, b: Seq<char>, c: Seq<char>)
    requires
        text_before(a, b),
        text_before(b, c),
    ensures
        text_before(a, c),
    decreases a.len(),
{
    if a.len() > 0 && b.len() > 0 && c.len() > 0 && a[0] == b[0] && b[0] == c[0] {
        lemma_before_transitive(a.drop_first(), b.drop_first(), c.drop_first());
    }
}

/// Whether `a` comes before `b`.
pub fn text_less(a: &str, b: &str) -> (r: bool)
    ensures
        r == text_before(a@, b@),
{
    let n = a.unicode_len();
    let m = b.unicode_len();
    let mut i: usize = 0;
    assert(a@.skip(0) =~= a@);
    assert(b@.skip(0) =~= b@);
    while i < n && i < m
        invariant
            n == a@.len(),
            m == b@.len(),
            i <= n,
            i <= m,
            a@.subrange(0, i as int) == b@.subrange(0, i as int),
            text_before(a@, b@) == text_before(a@.skip(i as int), b@.skip(i as int)),
        decreases n - i,
    {
        let x = a.get_char(i);
        let y = b.get_char(i);
        if x != y {
            assert(a@.skip(i as int)[0] == x);
            assert(b@.skip(i as int)[0] == y);
            return x < y;
        }
        proof {
            assert(a@.skip(i as int).drop_first() =~= a@.skip(i as int + 1));
            assert(b@.skip(i as int).drop_first() =~= b@.skip(i as int + 1));
            assert(a@.subrange(0, i as int + 1) =~= a@.subrange(0, i as int).push(x));
            assert(b@.subrange(0, i as int + 1) =~= b@.subrange(0, i as int).push(y));
        }
        i = i + 1;
    }
    i < m
}

/// Whether the texts of `s` are in strictly increasing order: sorted, and no
/// text twice.
pub open spec fn strictly_sorted(s: Seq<Seq<char>>) -> bool {
    forall|i: int, j: int| 0 <= i < j < s.len() ==> text_before(#[trigger] s[i], #[trigger] s[j])
}

/// The texts of a list of strings.
pub open spec fn texts(v: Seq<String>) -> Seq<Seq<char>> {
    v.map_values(|s: String| s@)
}

/// The place where `name` belongs in the sorted `v`: the first text that does
/// not come before it.
fn sorted_place(v: &Vec<String>, name: &String) -> (r: usize)
    requires
        strictly_sorted(texts(v@)),
    ensures
        r <= v@.len(),
        forall|j: int| 0 <= j < r ==> text_before(#[trigger] v@[j]@, name@),
        r < v@.len() ==> !text_before(v@[r as int]@, name@),
{
    let mut i: usize = 0;
    while i < v.len()
        invariant
            i <= v@.len(),
            forall|j: int| 0 <= j < i ==> text_before(#[trigger] v@[j]@, name@),
        decreases v@.len() - i,
    {
        if !text_less(v[i].as_str(), name.as_str()) {
            return i;
        }
        i = i + 1;
    }
    i
}

/// Adds `name` to the sorted list `v` of texts, where it is not there.
fn insert_sorted(v: &mut Vec<String>, name: String)
    requires
        strictly_sorted(texts(old(v)@)),
    ensures
        strictly_sorted(texts(final(v)@)),
        texts(final(v)@).to_set() == texts(old(v)@).to_set().insert(name@),
{
    let p = sorted_place(v, &name);
    let ghost before = texts(v@);
    if p < v.len() && v[p] == name {
        proof {
            assert(before[p as int] == name@);
            assert(before.to_set().insert(name@) =~= before.to_set());
        }
        return;
    }
    proof {
        if p < v@.len() {
            lemma_before_total(v@[p as int]@, name@);
        }
    }
    v.insert(p, name);
    proof {
        let after = texts(v@);
        assert(after =~= before.insert(p as int, name@));
        assert forall|i: int, j: int| 0 <= i < j < after.len() implies text_before(#[trigger] after[i], #[trigger] after[j]) by {
            if j < p {
                assert(after[i] == before[i] && after[j] == before[j]);
            } else if j == p {
                assert(after[i] == before[i]);
            } else if i == p {
                assert(after[j] == before[j - 1]);
                if j - 1 > p {
                    assert(text_before(before[p as int], before[j - 1]));
                    lemma_before_transitive(name@, before[p as int], before[j - 1]);
                }
            } else if i < p {
                assert(after[i] == before[i] && after[j] == before[j - 1]);
                if p < before.len() {
                    lemma_before_transitive(before[i], name@, before[p as int]);
                }
                if j - 1 != p && i != j - 1 {
                    assert(text_before(before[i], before[j - 1]));
                }
                if j - 1 == p {
                    lemma_before_transitive(before[i], name@, before[p as int]);
                }
            } else {
                assert(after[i] == before[i - 1] && after[j] == before[j - 1]);
            }
        }
        assert forall|x: Seq<char>| after.to_set().contains(x) <==> before.to_set().insert(name@).contains(x) by {
            if after.to_set().contains(x) {
                let k = choose|k: int| 0 <= k < after.len() && after[k] == x;
                if k < p {
                    assert(before[k] == x);
                } else if k > p {
                    assert(before[k - 1] == x);
                }
            }
            if before.to_set().contains(x) {
                let k = choose|k: int| 0 <= k < before.len() && before[k] == x;
                if k < p {
                    assert(after[k] == x);
                } else {
                    assert(after[k + 1] == x);
                }
            }
            if x == name@ {
                assert(after[p as int] == x);
            }
        }
        assert(after.to_set() =~= before.to_set().insert(name@));
    }
}

/// Adds the names `new` to the names `imports`: afterwards they are sorted,
/// with no name twice, and they are exactly the names of both.
pub fn new_imports(imports: &mut Vec<String>, new: Vec<String>)
    ensures
        strictly_sorted(texts(final(imports)@)),
        texts(final(imports)@).to_set() == texts(old(imports)@).to_set() + texts(new@).to_set(),
{
    let mut r: Vec<String> = Vec::new();
    let ghost all = texts(imports@) + texts(new@);
    let mut i: usize = 0;
    while i < imports.len()
        invariant
            i <= imports@.len(),
            strictly_sorted(texts(r@)),
            texts(r@).to_set() == texts(imports@).take(i as int).to_set(),
        decreases imports@.len() - i,
    {
        proof {
            assert(texts(imports@).take(i as int + 1) =~= texts(imports@).take(i as int).push(imports@[i as int]@));
            texts(imports@).take(i as int).lemma_push_to_set_commute(imports@[i as int]@);
        }
        insert_sorted(&mut r, imports[i].clone());
        i = i + 1;
    }
    assert(texts(imports@).take(imports@.len() as int) =~= texts(imports@));
    let mut k: usize = 0;
    while k < new.len()
        invariant
            k <= new@.len(),
            strictly_sorted(texts(r@)),
            texts(r@).to_set() == texts(imports@).to_set() + texts(new@).take(k as int).to_set(),
        decreases new@.len() - k,
    {
        proof {
            assert(texts(new@).take(k as int + 1) =~= texts(new@).take(k as int).push(new@[k as int]@));
            texts(new@).take(k as int).lemma_push_to_set_commute(new@[k as int]@);
            assert(texts(imports@).to_set() + texts(new@).take(k as int).to_set().insert(new@[k as int]@)
                =~= (texts(imports@).to_set() + texts(new@).take(k as int).to_set()).insert(new@[k as int]@));
        }
        insert_sorted(&mut r, new[k].clone());
        k = k + 1;
    }
    assert(texts(new@).take(new@.len() as int) =~= texts(new@));
    *imports = r;
}

} // verus!
