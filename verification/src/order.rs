//! Stable ordering by integer keys: the sorts of the engines reduce to this.
use vstd::prelude::*;

verus! {

/// Strict lexicographic order on integer sequences; a proper prefix comes first.
pub open spec fn lex_lt(a: Seq<i64>, b: Seq<i64>) -> bool
    decreases a.len(),
{
    if a.len() == 0 {
        b.len() > 0
    } else if b.len() == 0 {
        false
    } else if a[0] < b[0] {
        true
    } else if a[0] > b[0] {
        false
    } else {
        lex_lt(a.drop_first(), b.drop_first())
    }
}

pub proof fn lemma_lex_irreflexive(a: Seq<i64>)
    ensures
        !lex_lt(a, a),
    decreases a.len(),
{
    if a.len() > 0 {
        lemma_lex_irreflexive(a.drop_first());
    }
}

pub proof fn lemma_lex_transitive(a: Seq<i64>, b: Seq<i64>, c: Seq<i64>)
    requires
        lex_lt(a, b),
        lex_lt(b, c),
    ensures
        lex_lt(a, c),
    decreases a.len(),
{
    if a.len() > 0 && b.len() > 0 && c.len() > 0 && a[0] == b[0] && b[0] == c[0] {
        lemma_lex_transitive(a.drop_first(), b.drop_first(), c.drop_first());
    }
}

pub proof fn lemma_lex_total(a: Seq<i64>, b: Seq<i64>)
    ensures
        lex_lt(a, b) || lex_lt(b, a) || a == b,
    decreases a.len(),
{
    if a.len() > 0 && b.len() > 0 && a[0] == b[0] {
        lemma_lex_total(a.drop_first(), b.drop_first());
        if a.drop_first() == b.drop_first() {
            assert(a =~= seq![a[0]] + a.drop_first());
            assert(b =~= seq![b[0]] + b.drop_first());
        }
    } else if a.len() == 0 && b.len() == 0 {
        assert(a =~= b);
    }
}

pub proof fn lemma_lex_asym(a: Seq<i64>, b: Seq<i64>)
    requires
        lex_lt(a, b),
    ensures
        !lex_lt(b, a),
{
    if lex_lt(b, a) {
        lemma_lex_transitive(a, b, a);
        lemma_lex_irreflexive(a);
    }
}

/// The order of a stable sort: by key, then by original position.
pub open spec fn before(keys: Seq<Seq<i64>>, i: int, j: int) -> bool {
    lex_lt(keys[i], keys[j]) || (keys[i] == keys[j] && i < j)
}

/// `p` lists every index of `0..n` once.
pub open spec fn is_perm(p: Seq<usize>, n: int) -> bool {
    &&& p.len() == n
    &&& forall|k: int| 0 <= k < n ==> (#[trigger] p[k] as int) < n
    &&& forall|k: int, l: int| 0 <= k < l < n ==> p[k] != p[l]
}

/// `p` is the stable sort order of `keys`.
pub open spec fn sorted_by(keys: Seq<Seq<i64>>, p: Seq<usize>) -> bool {
    &&& is_perm(p, keys.len() as int)
    &&& forall|k: int, l: int| 0 <= k < l < p.len() ==> before(keys, #[trigger] p[k] as int, #[trigger] p[l] as int)
}

/// Whether `a` comes strictly before `b` lexicographically.
pub fn lex_less(a: &Vec<i64>, b: &Vec<i64>) -> (r: bool)
    ensures
        r == lex_lt(a@, b@),
{
    let mut i: usize = 0;
    assert(a@.subrange(0, a@.len() as int) =~= a@);
    assert(b@.subrange(0, b@.len() as int) =~= b@);
    while i < a.len() && i < b.len()
        invariant
            i <= a@.len(),
            i <= b@.len(),
            lex_lt(a@, b@) == lex_lt(a@.subrange(i as int, a@.len() as int), b@.subrange(i as int, b@.len() as int)),
        decreases a@.len() - i,
    {
        let ghost sa = a@.subrange(i as int, a@.len() as int);
        let ghost sb = b@.subrange(i as int, b@.len() as int);
        if a[i] < b[i] {
            return true;
        }
        if a[i] > b[i] {
            return false;
        }
        assert(sa.drop_first() =~= a@.subrange(i + 1, a@.len() as int));
        assert(sb.drop_first() =~= b@.subrange(i + 1, b@.len() as int));
        i = i + 1;
    }
    let ghost sa = a@.subrange(i as int, a@.len() as int);
    let ghost sb = b@.subrange(i as int, b@.len() as int);
    assert(sa.len() == 0 || sb.len() == 0);
    i == a.len() && i < b.len()
}

fn before_exec(keys: &Vec<Vec<i64>>, i: usize, j: usize) -> (r: bool)
    requires
        i < keys@.len(),
        j < keys@.len(),
    ensures
        r == before(keys@.map_values(|k: Vec<i64>| k@), i as int, j as int),
{
    let ghost ks = keys@.map_values(|k: Vec<i64>| k@);
    if lex_less(&keys[i], &keys[j]) {
        return true;
    }
    if lex_less(&keys[j], &keys[i]) {
        proof { lemma_lex_asym(ks[j as int], ks[i as int]); }
        return false;
    }
    proof { lemma_lex_total(ks[i as int], ks[j as int]); }
    i < j
}

pub proof fn lemma_before_transitive(keys: Seq<Seq<i64>>, i: int, j: int, k: int)
    requires
        before(keys, i, j),
        before(keys, j, k),
    ensures
        before(keys, i, k),
{
    if lex_lt(keys[i], keys[j]) && lex_lt(keys[j], keys[k]) {
        lemma_lex_transitive(keys[i], keys[j], keys[k]);
    }
}

pub proof fn lemma_before_total(keys: Seq<Seq<i64>>, i: int, j: int)
    requires
        i != j,
    ensures
        before(keys, i, j) || before(keys, j, i),
{
    lemma_lex_total(keys[i], keys[j]);
}

pub proof fn lemma_before_asym(keys: Seq<Seq<i64>>, i: int, j: int)
    requires
        before(keys, i, j),
    ensures
        !before(keys, j, i),
{
    if lex_lt(keys[i], keys[j]) {
        lemma_lex_asym(keys[i], keys[j]);
        if keys[j] == keys[i] {
            lemma_lex_irreflexive(keys[i]);
        }
    } else {
        lemma_lex_irreflexive(keys[i]);
    }
}

/// The stable sort order of `keys`, by insertion.
pub fn sort_order(keys: &Vec<Vec<i64>>) -> (p: Vec<usize>)
    ensures
        sorted_by(keys@.map_values(|k: Vec<i64>| k@), p@),
{
    let ghost ks = keys@.map_values(|k: Vec<i64>| k@);
    let n = keys.len();
    let mut p: Vec<usize> = Vec::new();
    let mut i: usize = 0;
    while i < n
        invariant
            n == keys@.len(),
            ks == keys@.map_values(|k: Vec<i64>| k@),
            i <= n,
            p@.len() == i,
            forall|k: int| 0 <= k < i ==> (#[trigger] p@[k] as int) < i,
            forall|k: int, l: int| 0 <= k < l < i ==> p@[k] != p@[l],
            forall|k: int, l: int| 0 <= k < l < i ==> before(ks, #[trigger] p@[k] as int, #[trigger] p@[l] as int),
        decreases n - i,
    {
        let mut pos: usize = 0;
        while pos < p.len() && !before_exec(keys, i, p[pos])
            invariant
                n == keys@.len(),
                ks == keys@.map_values(|k: Vec<i64>| k@),
                i < n,
                p@.len() == i,
                pos <= i,
                forall|k: int| 0 <= k < i ==> (#[trigger] p@[k] as int) < i,
                forall|k: int| 0 <= k < pos ==> !before(ks, i as int, #[trigger] p@[k] as int),
            decreases i - pos,
        {
            pos = pos + 1;
        }
        let ghost old_p = p@;
        proof {
            assert forall|k: int| 0 <= k < pos implies before(ks, #[trigger] old_p[k] as int, i as int) by {
                lemma_before_total(ks, i as int, old_p[k] as int);
            }
            if pos < i {
                assert(before(ks, i as int, old_p[pos as int] as int));
                assert forall|k: int| pos <= k < i implies before(ks, i as int, #[trigger] old_p[k] as int) by {
                    if k > pos {
                        lemma_before_transitive(ks, i as int, old_p[pos as int] as int, old_p[k] as int);
                    }
                }
            }
        }
        p.insert(pos, i);
        proof {
            assert forall|k: int, l: int| 0 <= k < l < i + 1 implies before(ks, #[trigger] p@[k] as int, #[trigger] p@[l] as int) by {
                if k < pos && l < pos {
                    assert(p@[k] == old_p[k] && p@[l] == old_p[l]);
                } else if k < pos && l == pos {
                } else if k < pos && l > pos {
                    assert(p@[l] == old_p[l - 1]);
                } else if k == pos {
                    assert(p@[l] == old_p[l - 1]);
                } else {
                    assert(p@[k] == old_p[k - 1] && p@[l] == old_p[l - 1]);
                }
            }
            assert forall|k: int, l: int| 0 <= k < l < i + 1 implies p@[k] != p@[l] by {
                if k < pos && l < pos {
                } else if k < pos && l == pos {
                } else if k < pos && l > pos {
                    assert(p@[l] == old_p[l - 1]);
                } else if k == pos {
                    assert(p@[l] == old_p[l - 1]);
                } else {
                    assert(p@[k] == old_p[k - 1] && p@[l] == old_p[l - 1]);
                }
            }
            assert forall|k: int| 0 <= k < i + 1 implies (#[trigger] p@[k] as int) < i + 1 by {
                if k < pos {
                } else if k > pos {
                    assert(p@[k] == old_p[k - 1]);
                }
            }
        }
        i = i + 1;
    }
    p
}


/// The first place at or after `k` in `p` whose index does not come before `x`.
pub open spec fn insert_place(keys: Seq<Seq<i64>>, p: Seq<usize>, x: int, k: int) -> int
    decreases p.len() - k,
{
    if k >= p.len() || !before(keys, p[k] as int, x) {
        k
    } else {
        insert_place(keys, p, x, k + 1)
    }
}

proof fn lemma_insert_place(keys: Seq<Seq<i64>>, p: Seq<usize>, x: int, k: int)
    requires
        0 <= k <= p.len(),
        forall|j: int| 0 <= j < k ==> before(keys, #[trigger] p[j] as int, x),
    ensures
        k <= insert_place(keys, p, x, k) <= p.len(),
        forall|j: int| 0 <= j < insert_place(keys, p, x, k) ==> before(keys, #[trigger] p[j] as int, x),
        insert_place(keys, p, x, k) < p.len() ==> !before(keys, p[insert_place(keys, p, x, k)] as int, x),
    decreases p.len() - k,
{
    if k < p.len() && before(keys, p[k] as int, x) {
        lemma_insert_place(keys, p, x, k + 1);
    }
}

/// The stable order of the first `i` indices exists.
proof fn lemma_prefix_order(keys: Seq<Seq<i64>>, i: int) -> (p: Seq<usize>)
    requires
        0 <= i <= keys.len(),
        keys.len() <= usize::MAX,
    ensures
        p.len() == i,
        forall|k: int| 0 <= k < i ==> (#[trigger] p[k] as int) < i,
        forall|k: int, l: int| 0 <= k < l < i ==> p[k] != p[l],
        forall|k: int, l: int| 0 <= k < l < i ==> before(keys, #[trigger] p[k] as int, #[trigger] p[l] as int),
    decreases i,
{
    if i == 0 {
        Seq::empty()
    } else {
        let old_p = lemma_prefix_order(keys, i - 1);
        let x = i - 1;
        lemma_insert_place(keys, old_p, x, 0);
        let pos = insert_place(keys, old_p, x, 0);
        assert forall|k: int| 0 <= k < pos implies before(keys, #[trigger] old_p[k] as int, x) by {}
        if pos < x {
            assert(!before(keys, old_p[pos] as int, x));
            lemma_before_total(keys, x, old_p[pos] as int);
            assert forall|k: int| pos <= k < x implies before(keys, x, #[trigger] old_p[k] as int) by {
                if k > pos {
                    lemma_before_transitive(keys, x, old_p[pos] as int, old_p[k] as int);
                }
            }
        }
        let p = old_p.insert(pos, x as usize);
        assert forall|k: int, l: int| 0 <= k < l < i implies before(keys, #[trigger] p[k] as int, #[trigger] p[l] as int) by {
            if k < pos && l < pos {
                assert(p[k] == old_p[k] && p[l] == old_p[l]);
            } else if k < pos && l == pos {
                assert(p[k] == old_p[k]);
            } else if k < pos && l > pos {
                assert(p[k] == old_p[k] && p[l] == old_p[l - 1]);
            } else if k == pos {
                assert(p[l] == old_p[l - 1]);
            } else {
                assert(p[k] == old_p[k - 1] && p[l] == old_p[l - 1]);
            }
        }
        assert forall|k: int, l: int| 0 <= k < l < i implies p[k] != p[l] by {
            if k < pos && l < pos {
            } else if k < pos && l == pos {
                assert(p[k] == old_p[k]);
            } else if k < pos && l > pos {
                assert(p[k] == old_p[k] && p[l] == old_p[l - 1]);
            } else if k == pos {
                assert(p[l] == old_p[l - 1]);
            } else {
                assert(p[k] == old_p[k - 1] && p[l] == old_p[l - 1]);
            }
        }
        assert forall|k: int| 0 <= k < i implies (#[trigger] p[k] as int) < i by {
            if k < pos {
                assert(p[k] == old_p[k]);
            } else if k > pos {
                assert(p[k] == old_p[k - 1]);
            }
        }
        p
    }
}

/// Every list of keys short enough to index has a stable sort order.
pub proof fn lemma_sort_order_exists(keys: Seq<Seq<i64>>)
    requires
        keys.len() <= usize::MAX,
    ensures
        exists|p: Seq<usize>| sorted_by(keys, p),
{
    let p = lemma_prefix_order(keys, keys.len() as int);
    assert(sorted_by(keys, p));
}

/// Index `i` holds the first least key among the marked entries.
pub open spec fn first_min(keys: Seq<Seq<i64>>, mask: Seq<bool>, i: int) -> bool {
    &&& 0 <= i < keys.len()
    &&& mask[i]
    &&& forall|j: int| 0 <= j < keys.len() && mask[j] && j < i ==> lex_lt(keys[i], #[trigger] keys[j])
    &&& forall|j: int| 0 <= j < keys.len() && mask[j] && j > i ==> !lex_lt(#[trigger] keys[j], keys[i])
}

/// The first least key among the marked entries, if any is marked.
pub fn first_min_index(keys: &Vec<Vec<i64>>, mask: &Vec<bool>) -> (r: Option<usize>)
    requires
        mask@.len() == keys@.len(),
    ensures
        r is None <==> forall|j: int| 0 <= j < mask@.len() ==> !mask@[j],
        r matches Some(i) ==> first_min(keys@.map_values(|k: Vec<i64>| k@), mask@, i as int),
{
    let ghost ks = keys@.map_values(|k: Vec<i64>| k@);
    let mut best: Option<usize> = None;
    let mut i: usize = 0;
    while i < keys.len()
        invariant
            mask@.len() == keys@.len(),
            ks == keys@.map_values(|k: Vec<i64>| k@),
            i <= keys@.len(),
            best is None <==> forall|j: int| 0 <= j < i ==> !mask@[j],
            best matches Some(b) ==> (b < i && mask@[b as int]
                && (forall|j: int| 0 <= j < b && mask@[j] ==> lex_lt(ks[b as int], #[trigger] ks[j]))
                && (forall|j: int| b < j < i && mask@[j] ==> !lex_lt(#[trigger] ks[j], ks[b as int]))),
        decreases keys@.len() - i,
    {
        if mask[i] {
            match best {
                None => {
                    best = Some(i);
                },
                Some(b) => {
                    if lex_less(&keys[i], &keys[b]) {
                        proof {
                            assert forall|j: int| 0 <= j < i && mask@[j] implies lex_lt(ks[i as int], #[trigger] ks[j]) by {
                                if j < b {
                                    lemma_lex_transitive(ks[i as int], ks[b as int], ks[j]);
                                } else if j == b {
                                } else {
                                    lemma_lex_total(ks[j], ks[b as int]);
                                    if lex_lt(ks[b as int], ks[j]) {
                                        lemma_lex_transitive(ks[i as int], ks[b as int], ks[j]);
                                    }
                                }
                            }
                        }
                        best = Some(i);
                    }
                },
            }
        }
        i = i + 1;
    }
    best
}

/// Every index below `n` occurs in a permutation of `0..n`.
pub proof fn lemma_perm_onto(p: Seq<usize>, n: int, v: int)
    requires
        is_perm(p, n),
        0 <= v < n,
    ensures
        exists|k: int| 0 <= k < n && p[k] as int == v,
{
    let s = p.map_values(|x: usize| x as int);
    assert(s.no_duplicates()) by {
        assert forall|i: int, j: int| 0 <= i < s.len() && 0 <= j < s.len() && i != j implies s[i] != s[j] by {
            if i < j {
                assert(p[i] != p[j]);
            } else {
                assert(p[j] != p[i]);
            }
        }
    }
    s.unique_seq_to_set();
    vstd::set_lib::lemma_int_range(0, n);
    let r = vstd::set_lib::set_int_range(0, n);
    assert(s.to_set().subset_of(r)) by {
        assert forall|x: int| s.to_set().contains(x) implies r.contains(x) by {
            let k = choose|k: int| 0 <= k < s.len() && s[k] == x;
            assert((p[k] as int) < n);
        }
    }
    vstd::set_lib::lemma_subset_equality(s.to_set(), r);
    assert(r.contains(v));
    assert(s.to_set().contains(v));
    let k = choose|k: int| 0 <= k < s.len() && s[k] == v;
    assert(p[k] as int == v);
}

/// The stable sort order of a list of keys is unique.
pub proof fn lemma_sorted_by_unique(keys: Seq<Seq<i64>>, p: Seq<usize>, q: Seq<usize>)
    requires
        sorted_by(keys, p),
        sorted_by(keys, q),
    ensures
        p == q,
{
    let n = keys.len() as int;
    if n > 0 {
        lemma_sorted_prefix(keys, p, q, n - 1);
    }
    assert(p =~= q);
}

proof fn lemma_sorted_prefix(keys: Seq<Seq<i64>>, p: Seq<usize>, q: Seq<usize>, k: int)
    requires
        sorted_by(keys, p),
        sorted_by(keys, q),
        0 <= k < keys.len(),
    ensures
        forall|j: int| 0 <= j <= k ==> p[j] == q[j],
    decreases k,
{
    let n = keys.len() as int;
    if k > 0 {
        lemma_sorted_prefix(keys, p, q, k - 1);
    }
    if p[k] != q[k] {
        lemma_perm_onto(q, n, p[k] as int);
        let l = choose|l: int| 0 <= l < n && q[l] as int == p[k] as int;
        lemma_perm_onto(p, n, q[k] as int);
        let m = choose|m: int| 0 <= m < n && p[m] as int == q[k] as int;
        if l < k {
            assert(p[l] == q[l]);
            assert(false);
        }
        if m < k {
            assert(p[m] == q[m]);
            assert(false);
        }
        assert(k < m && k < l);
        assert(before(keys, p[k] as int, p[m] as int));
        assert(before(keys, q[k] as int, q[l] as int));
        lemma_before_asym(keys, p[k] as int, q[k] as int);
    }
}

} // verus!
