//! Stable sorting by sort keys (sequences of integers compared lexicographically).
use vstd::prelude::*;

verus! {

/// Strict lexicographic order on key sequences (a proper prefix comes first).
pub open spec fn lex_lt(a: Seq<u64>, b: Seq<u64>) -> bool
    decreases a.len(),
{
    if a.len() == 0 {
        b.len() > 0
    } else if b.len() == 0 {
        false
    } else if a[0] < b[0] {
        true
    } else if a[0] > b[0] {
        false
    } else {
        lex_lt(a.drop_first(), b.drop_first())
    }
}

pub proof fn lemma_lex_irreflexive(a: Seq<u64>)
    ensures
        !lex_lt(a, a),
    decreases a.len(),
{
    if a.len() > 0 {
        lemma_lex_irreflexive(a.drop_first());
    }
}

pub proof fn lemma_lex_trans(a: Seq<u64>, b: Seq<u64>, c: Seq<u64>)
    requires
        lex_lt(a, b),
        lex_lt(b, c),
    ensures
        lex_lt(a, c),
    decreases a.len(),
{
    if a.len() > 0 && b.len() > 0 && c.len() > 0 && a[0] == b[0] && b[0] == c[0] {
        lemma_lex_trans(a.drop_first(), b.drop_first(), c.drop_first());
    }
}

pub proof fn lemma_lex_total(a: Seq<u64>, b: Seq<u64>)
    ensures
        lex_lt(a, b) || lex_lt(b, a) || a == b,
    decreases a.len(),
{
    if a.len() > 0 && b.len() > 0 && a[0] == b[0] {
        lemma_lex_total(a.drop_first(), b.drop_first());
        if a.drop_first() == b.drop_first() {
            assert(a =~= seq![a[0]] + a.drop_first());
            assert(b =~= seq![b[0]] + b.drop_first());
        }
    } else if a.len() == 0 && b.len() == 0 {
        assert(a =~= b);
    }
}

/// Whether key `x` comes strictly before key `y` (in descending order when `desc`).
pub open spec fn key_before(x: Seq<u64>, y: Seq<u64>, desc: bool) -> bool {
    if desc {
        lex_lt(y, x)
    } else {
        lex_lt(x, y)
    }
}

/// Whether element `i` precedes element `j` in the stable order: by key, ties by index.
pub open spec fn stable_before(keys: Seq<Seq<u64>>, desc: bool, i: int, j: int) -> bool {
    key_before(keys[i], keys[j], desc) || (keys[i] == keys[j] && i < j)
}

/// `perm` lists every index of `keys` exactly once, in stable sorted order.
pub open spec fn is_stable_sort(keys: Seq<Seq<u64>>, desc: bool, perm: Seq<usize>) -> bool {
    &&& perm.len() == keys.len()
    &&& forall|a: int| 0 <= a < perm.len() ==> #[trigger] perm[a] < keys.len()
    &&& forall|a: int, b: int|
        0 <= a < b < perm.len() ==> stable_before(keys, desc, #[trigger] perm[a] as int, #[trigger] perm[b] as int)
}

proof fn lemma_stable_trans(keys: Seq<Seq<u64>>, desc: bool, i: int, j: int, k: int)
    requires
        stable_before(keys, desc, i, j),
        stable_before(keys, desc, j, k),
    ensures
        stable_before(keys, desc, i, k),
{
    if desc {
        if lex_lt(keys[j], keys[i]) && lex_lt(keys[k], keys[j]) {
            lemma_lex_trans(keys[k], keys[j], keys[i]);
        }
    } else {
        if lex_lt(keys[i], keys[j]) && lex_lt(keys[j], keys[k]) {
            lemma_lex_trans(keys[i], keys[j], keys[k]);
        }
    }
}

proof fn lemma_stable_irreflexive(keys: Seq<Seq<u64>>, desc: bool, i: int)
    ensures
        !stable_before(keys, desc, i, i),
{
    lemma_lex_irreflexive(keys[i]);
}

/// Distinct entries, which a stably sorted permutation always has.
pub proof fn lemma_stable_sort_distinct(keys: Seq<Seq<u64>>, desc: bool, perm: Seq<usize>)
    requires
        is_stable_sort(keys, desc, perm),
    ensures
        forall|a: int, b: int| 0 <= a < b < perm.len() ==> perm[a] != perm[b],
{
    assert forall|a: int, b: int| 0 <= a < b < perm.len() implies perm[a] != perm[b] by {
        assert(stable_before(keys, desc, perm[a] as int, perm[b] as int));
        lemma_stable_irreflexive(keys, desc, perm[a] as int);
    }
}

fn lex_lt_exec(a: &Vec<u64>, b: &Vec<u64>) -> (res: bool)
    ensures
        res == lex_lt(a@, b@),
{
    let mut i: usize = 0;
    assert(a@.skip(0) =~= a@ && b@.skip(0) =~= b@);
    while i < a.len() && i < b.len()
        invariant
            i <= a.len(),
            i <= b.len(),
            lex_lt(a@, b@) == lex_lt(a@.skip(i as int), b@.skip(i as int)),
        decreases a.len() - i,
    {
        if a[i] < b[i] {
            return true;
        }
        if a[i] > b[i] {
            return false;
        }
        assert(a@.skip(i as int).drop_first() =~= a@.skip(i + 1));
        assert(b@.skip(i as int).drop_first() =~= b@.skip(i + 1));
        i = i + 1;
    }
    i == a.len() && i < b.len()
}

fn key_before_exec(x: &Vec<u64>, y: &Vec<u64>, desc: bool) -> (res: bool)
    ensures
        res == key_before(x@, y@, desc),
{
    if desc {
        lex_lt_exec(y, x)
    } else {
        lex_lt_exec(x, y)
    }
}

/// The stable sort of the indices of `keys`, like `slice::sort_by_key` (which is stable).
pub fn stable_sort_indices(keys: &Vec<Vec<u64>>, desc: bool) -> (perm: Vec<usize>)
    ensures
        is_stable_sort(keys@.map_values(|k: Vec<u64>| k@), desc, perm@),
{
    let ghost ks = keys@.map_values(|k: Vec<u64>| k@);
    let mut perm: Vec<usize> = Vec::new();
    let mut i: usize = 0;
    while i < keys.len()
        invariant
            i <= keys.len(),
            ks == keys@.map_values(|k: Vec<u64>| k@),
            perm@.len() == i,
            forall|a: int| 0 <= a < perm@.len() ==> #[trigger] perm@[a] < i,
            forall|a: int, b: int|
                0 <= a < b < perm@.len() ==> stable_before(ks, desc, #[trigger] perm@[a] as int, #[trigger] perm@[b] as int),
        decreases keys.len() - i,
    {
        // first position whose key comes strictly after key i
        let mut p: usize = 0;
        while p < perm.len() && !key_before_exec(&keys[i], &keys[perm[p]], desc)
            invariant
                i < keys.len(),
                ks == keys@.map_values(|k: Vec<u64>| k@),
                p <= perm@.len(),
                forall|a: int| 0 <= a < perm@.len() ==> #[trigger] perm@[a] < i,
                forall|a: int| 0 <= a < p ==> !key_before(ks[i as int], ks[#[trigger] perm@[a] as int], desc),
            decreases perm@.len() - p,
        {
            assert(ks[i as int] == keys@[i as int]@);
            assert(ks[perm@[p as int] as int] == keys@[perm@[p as int] as int]@);
            p = p + 1;
        }
        assert(ks[i as int] == keys@[i as int]@);
        if p < perm.len() {
            assert(ks[perm@[p as int] as int] == keys@[perm@[p as int] as int]@);
            assert(key_before(ks[i as int], ks[perm@[p as int] as int], desc));
        }
        let ghost old_perm = perm@;
        perm.insert(p, i);
        assert forall|a: int, b: int|
            0 <= a < b < perm@.len() implies stable_before(ks, desc, #[trigger] perm@[a] as int, #[trigger] perm@[b] as int) by {
            if a < p && b < p {
                assert(perm@[a] == old_perm[a] && perm@[b] == old_perm[b]);
            } else if a > p && b > p {
                assert(perm@[a] == old_perm[a - 1] && perm@[b] == old_perm[b - 1]);
            } else if a < p && b == p {
                let x = old_perm[a] as int;
                assert(perm@[a] == old_perm[a]);
                assert(!key_before(ks[i as int], ks[x], desc));
                lemma_lex_total(ks[i as int], ks[x]);
            } else if a < p && b > p {
                assert(perm@[a] == old_perm[a] && perm@[b] == old_perm[b - 1]);
            } else {
                // a == p, b > p
                assert(perm@[a] == i);
                assert(perm@[b] == old_perm[b - 1]);
                let y = old_perm[b - 1] as int;
                let z = old_perm[p as int] as int;
                assert(key_before(ks[i as int], ks[z], desc));
                if b - 1 > p {
                    assert(stable_before(ks, desc, z, y));
                    lemma_stable_trans(ks, desc, i as int, z, y);
                }
            }
        }
        i = i + 1;
    }
    perm
}

} // verus!

verus! {

// ---------------------------------------------------------------------------------------
// A stable sort is unique

proof fn lemma_stable_asym(keys: Seq<Seq<u64>>, desc: bool, i: int, j: int)
    requires
        stable_before(keys, desc, i, j),
    ensures
        !stable_before(keys, desc, j, i),
{
    if stable_before(keys, desc, j, i) {
        lemma_stable_trans(keys, desc, i, j, i);
        lemma_stable_irreflexive(keys, desc, i);
    }
}

/// The indices below `n`.
spec fn indices_below(n: int) -> Set<usize> {
    Set::new(|u: usize| (u as int) < n)
}

proof fn lemma_indices_below(n: int)
    requires
        0 <= n <= usize::MAX + 1,
    ensures
        indices_below(n).finite(),
        indices_below(n).len() == n,
    decreases n,
{
    if n == 0 {
        assert(indices_below(n) =~= Set::<usize>::empty());
    } else {
        lemma_indices_below(n - 1);
        assert(indices_below(n - 1).insert((n - 1) as usize) =~= indices_below(n));
    }
}

/// The entries of a stable sort are exactly the indices of the keys.
proof fn lemma_stable_sort_entries(keys: Seq<Seq<u64>>, desc: bool, p: Seq<usize>)
    requires
        is_stable_sort(keys, desc, p),
    ensures
        p.no_duplicates(),
        p.to_set() == indices_below(keys.len() as int),
{
    lemma_stable_sort_distinct(keys, desc, p);
    assert(p.no_duplicates()) by {
        assert forall|i: int, j: int| 0 <= i < p.len() && 0 <= j < p.len() && i != j implies p[i] != p[j] by {
            if i > j {
                assert(p[j] != p[i]);
            }
        }
    }
    p.unique_seq_to_set();
    let all = indices_below(usize::MAX + 1);
    lemma_indices_below(usize::MAX + 1);
    assert(p.to_set().subset_of(all));
    vstd::set_lib::lemma_len_subset(p.to_set(), all);
    let n = keys.len() as int;
    lemma_indices_below(n);
    assert(p.to_set().subset_of(indices_below(n))) by {
        assert forall|u: usize| p.to_set().contains(u) implies indices_below(n).contains(u) by {
            let k = choose|k: int| 0 <= k < p.len() && p[k] == u;
            assert(p[k] < keys.len());
        }
    }
    vstd::set_lib::lemma_subset_equality(p.to_set(), indices_below(n));
}

/// Two sequences without repeats that hold the same indices, each in stable sorted
/// order, are equal.
proof fn lemma_sorted_same_entries(keys: Seq<Seq<u64>>, desc: bool, p: Seq<usize>, q: Seq<usize>)
    requires
        p.len() == q.len(),
        p.no_duplicates(),
        q.no_duplicates(),
        p.to_set() == q.to_set(),
        forall|a: int, b: int| 0 <= a < b < p.len() ==> stable_before(keys, desc, #[trigger] p[a] as int, #[trigger] p[b] as int),
        forall|a: int, b: int| 0 <= a < b < q.len() ==> stable_before(keys, desc, #[trigger] q[a] as int, #[trigger] q[b] as int),
    ensures
        p == q,
    decreases p.len(),
{
    if p.len() > 0 {
        assert(p.to_set().contains(p[0]));
        assert(q.to_set().contains(p[0]));
        let j = choose|j: int| 0 <= j < q.len() && q[j] == p[0];
        assert(q.to_set().contains(q[0]));
        assert(p.to_set().contains(q[0]));
        let i = choose|i: int| 0 <= i < p.len() && p[i] == q[0];
        if j > 0 {
            assert(stable_before(keys, desc, q[0] as int, q[j] as int));
            if i == 0 {
                assert(q[0] == q[j]);
            } else {
                assert(stable_before(keys, desc, p[0] as int, p[i] as int));
                lemma_stable_asym(keys, desc, q[0] as int, p[0] as int);
            }
        }
        assert(p[0] == q[0]);
        let p1 = p.drop_first();
        let q1 = q.drop_first();
        assert(p1.to_set() == q1.to_set()) by {
            assert forall|u: usize| p1.to_set().contains(u) implies q1.to_set().contains(u) by {
                let k = choose|k: int| 0 <= k < p1.len() && p1[k] == u;
                assert(p[k + 1] == u);
                assert(q.to_set().contains(u));
                let m = choose|m: int| 0 <= m < q.len() && q[m] == u;
                if m == 0 {
                    assert(p[0] == p[k + 1]);
                }
                assert(q1[m - 1] == u);
            }
            assert forall|u: usize| q1.to_set().contains(u) implies p1.to_set().contains(u) by {
                let k = choose|k: int| 0 <= k < q1.len() && q1[k] == u;
                assert(q[k + 1] == u);
                assert(p.to_set().contains(u));
                let m = choose|m: int| 0 <= m < p.len() && p[m] == u;
                if m == 0 {
                    assert(q[0] == q[k + 1]);
                }
                assert(p1[m - 1] == u);
            }
            assert(p1.to_set() =~= q1.to_set());
        }
        assert forall|a: int, b: int| 0 <= a < b < p1.len() implies stable_before(keys, desc, #[trigger] p1[a] as int, #[trigger] p1[b] as int) by {
            assert(p1[a] == p[a + 1] && p1[b] == p[b + 1]);
        }
        assert forall|a: int, b: int| 0 <= a < b < q1.len() implies stable_before(keys, desc, #[trigger] q1[a] as int, #[trigger] q1[b] as int) by {
            assert(q1[a] == q[a + 1] && q1[b] == q[b + 1]);
        }
        lemma_sorted_same_entries(keys, desc, p1, q1);
        assert(p =~= seq![p[0]] + p1);
        assert(q =~= seq![q[0]] + q1);
    } else {
        assert(p =~= q);
    }
}

/// The stable sort of a list of keys is unique: two permutations that both list every
/// index in stable sorted order are the same. So a contract that says "a stable sort"
/// pins the order down completely.
pub proof fn lemma_stable_sort_unique(keys: Seq<Seq<u64>>, desc: bool, p: Seq<usize>, q: Seq<usize>)
    requires
        is_stable_sort(keys, desc, p),
        is_stable_sort(keys, desc, q),
    ensures
        p == q,
{
    lemma_stable_sort_entries(keys, desc, p);
    lemma_stable_sort_entries(keys, desc, q);
    lemma_sorted_same_entries(keys, desc, p, q);
}

} // verus!
