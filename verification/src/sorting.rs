//! Stable ordering of list rows (what the pages get from a stable `sort_by`):
//! by one integer key, by a pair of integer keys, by a rank and then a
//! ratio, or by text; the result is the permutation of row positions.

use vstd::prelude::*;

verus! {

/// Row `i` comes before row `j`: a better key (larger when `desc`, smaller
/// otherwise), or an equal key and an earlier position.
pub open spec fn before(k: Seq<i64>, desc: bool, i: int, j: int) -> bool {
    if k[i] == k[j] {
        i < j
    } else if desc {
        k[i] > k[j]
    } else {
        k[i] < k[j]
    }
}

/// `r` lists positions `0..n` of `k` in stable key order.
pub open spec fn stably_ordered(k: Seq<i64>, desc: bool, r: Seq<usize>) -> bool {
    &&& r.len() == k.len()
    &&& forall|a: int| 0 <= a < r.len() ==> #[trigger] r[a] < k.len()
    &&& forall|a: int, b: int| 0 <= a < b < r.len() ==> before(k, desc, r[a] as int, r[b] as int)
}

/// A stable ordering lists every position exactly once.
pub proof fn law_order_is_permutation(k: Seq<i64>, desc: bool, r: Seq<usize>)
    requires
        stably_ordered(k, desc, r),
        k.len() <= usize::MAX,
    ensures
        forall|a: int, b: int| 0 <= a < b < r.len() ==> r[a] != r[b],
        forall|i: usize| (i as int) < k.len() ==> #[trigger] r.contains(i),
{
    assert forall|a: int, b: int| 0 <= a < b < r.len() implies r[a] != r[b] by {
        assert(before(k, desc, r[a] as int, r[b] as int));
    }
    // r is an injective map from 0..n into 0..n, hence onto
    lemma_injective_onto(r, k.len() as int);
}

/// An injective sequence of `n` positions below `n` holds every position.
proof fn lemma_injective_onto(r: Seq<usize>, n: int)
    requires
        r.len() == n,
        n <= usize::MAX,
        forall|a: int| 0 <= a < r.len() ==> #[trigger] r[a] < n,
        forall|a: int, b: int| 0 <= a < b < r.len() ==> r[a] != r[b],
    ensures
        forall|i: usize| (i as int) < n ==> #[trigger] r.contains(i),
{
    let s = Set::new(|i: usize| 0 <= i < n);
    assert forall|i: usize| (i as int) < n implies #[trigger] r.contains(i) by {
        if !r.contains(i) {
            // r lies in s minus {i}, which has n - 1 elements: too few
            let t = s.remove(i);
            lemma_range_set_len(n);
            assert(r.to_set().subset_of(t)) by {
                assert forall|x: usize| r.to_set().contains(x) implies t.contains(x) by {
                    let a = choose|a: int| 0 <= a < r.len() && r[a] == x;
                }
            }
            r.unique_seq_to_set();
            vstd::set_lib::lemma_len_subset(r.to_set(), t);
        }
    }
}

/// The set `0..n` of positions has `n` elements.
proof fn lemma_range_set_len(n: int)
    requires
        0 <= n <= usize::MAX,
    ensures
        Set::new(|i: usize| 0 <= i < n).len() == n,
        Set::new(|i: usize| 0 <= i < n).finite(),
    decreases n,
{
    if n == 0 {
        assert(Set::new(|i: usize| 0 <= i < n) =~= Set::<usize>::empty());
    } else {
        lemma_range_set_len(n - 1);
        let prev = Set::new(|i: usize| 0 <= i < n - 1);
        assert(!prev.contains((n - 1) as usize));
        assert(Set::new(|i: usize| 0 <= i < n) =~= prev.insert((n - 1) as usize));
    }
}

/// The positions of `keys` in stable key order (descending when `desc`).
pub fn stable_order(keys: &Vec<i64>, desc: bool) -> (r: Vec<usize>)
    ensures
        stably_ordered(keys@, desc, r@),
{
    let ghost k = keys@;
    let mut r: Vec<usize> = Vec::new();
    let mut i: usize = 0;
    while i < keys.len()
        invariant
            i <= keys.len(),
            k == keys@,
            r.len() == i,
            forall|a: int| 0 <= a < r.len() ==> #[trigger] r@[a] < i,
            forall|a: int, b: int| 0 <= a < b < r.len() ==> before(k, desc, r@[a] as int, r@[b] as int),
        decreases keys.len() - i,
    {
        let ki = keys[i];
        let mut q: usize = 0;
        while q < r.len()
            invariant
                q <= r.len(),
                i < keys.len(),
                ki == k[i as int],
                k == keys@,
                forall|a: int| 0 <= a < r.len() ==> #[trigger] r@[a] < i,
                forall|a: int| 0 <= a < q ==> before(k, desc, r@[a] as int, i as int),
            ensures
                q <= r.len(),
                q < r.len() ==> before(k, desc, i as int, r@[q as int] as int),
                forall|a: int| 0 <= a < q ==> before(k, desc, r@[a] as int, i as int),
            decreases r.len() - q,
        {
            let kq = keys[r[q]];
            let better = if desc { ki > kq } else { ki < kq };
            if better {
                break;
            }
            q = q + 1;
        }
        let ghost old_r = r@;
        r.insert(q, i);
        proof {
            assert(r@ =~= old_r.subrange(0, q as int).push(i).add(old_r.subrange(q as int, old_r.len() as int)));
            assert forall|a: int| 0 <= a < r.len() implies #[trigger] r@[a] < i + 1 by {
                if a < q {
                    assert(r@[a] == old_r[a]);
                } else if a > q {
                    assert(r@[a] == old_r[a - 1]);
                }
            }
            assert forall|a: int, b: int| 0 <= a < b < r.len() implies before(k, desc, r@[a] as int, r@[b] as int) by {
                if b < q {
                    assert(r@[a] == old_r[a] && r@[b] == old_r[b]);
                } else if b == q {
                    assert(r@[a] == old_r[a]);
                } else if a < q {
                    assert(r@[a] == old_r[a] && r@[b] == old_r[b - 1]);
                } else if a == q {
                    assert(r@[b] == old_r[b - 1]);
                    if b - 1 > q {
                        assert(before(k, desc, old_r[q as int] as int, old_r[b - 1] as int));
                    }
                } else {
                    assert(r@[a] == old_r[a - 1] && r@[b] == old_r[b - 1]);
                }
            }
        }
        i = i + 1;
    }
    r
}

/// A ranked ratio key `(rank, num, den)`, `den > 0`: rows sort by ascending
/// rank, then by descending `num / den`.
pub open spec fn rr_better(a: (u8, i64, i64), b: (u8, i64, i64)) -> bool {
    a.0 < b.0 || (a.0 == b.0 && a.1 * b.2 > b.1 * a.2)
}

/// Two ranked ratio keys that sort alike.
pub open spec fn rr_equiv(a: (u8, i64, i64), b: (u8, i64, i64)) -> bool {
    a.0 == b.0 && a.1 * b.2 == b.1 * a.2
}

/// Row `i` comes before row `j`: a better key, or an equal key and an
/// earlier position.
pub open spec fn rr_before(k: Seq<(u8, i64, i64)>, i: int, j: int) -> bool {
    rr_better(k[i], k[j]) || (rr_equiv(k[i], k[j]) && i < j)
}

/// Every denominator is positive.
pub open spec fn rr_valid(k: Seq<(u8, i64, i64)>) -> bool {
    forall|i: int| 0 <= i < k.len() ==> #[trigger] k[i].2 > 0
}

/// `r` lists positions `0..n` of `k` in stable ranked-ratio order.
pub open spec fn rr_ordered(k: Seq<(u8, i64, i64)>, r: Seq<usize>) -> bool {
    &&& r.len() == k.len()
    &&& forall|a: int| 0 <= a < r.len() ==> #[trigger] r[a] < k.len()
    &&& forall|a: int, b: int| 0 <= a < b < r.len() ==> rr_before(k, r[a] as int, r[b] as int)
}

/// Cross-multiplied ratio comparison is transitive for positive denominators.
proof fn lemma_ratio_trans(nx: int, dx: int, ny: int, dy: int, nz: int, dz: int)
    requires
        dx > 0,
        dy > 0,
        dz > 0,
    ensures
        nx * dy > ny * dx && ny * dz >= nz * dy ==> nx * dz > nz * dx,
        nx * dy >= ny * dx && ny * dz > nz * dy ==> nx * dz > nz * dx,
        nx * dy == ny * dx && ny * dz == nz * dy ==> nx * dz == nz * dx,
{
    if nx * dy > ny * dx && ny * dz >= nz * dy {
        assert(nx * dy * dz > ny * dx * dz) by (nonlinear_arith)
            requires nx * dy > ny * dx, dz > 0;
        assert(ny * dz * dx >= nz * dy * dx) by (nonlinear_arith)
            requires ny * dz >= nz * dy, dx > 0;
        assert(nx * dz > nz * dx) by (nonlinear_arith)
            requires nx * dy * dz > ny * dx * dz, ny * dz * dx >= nz * dy * dx, dy > 0;
    }
    if nx * dy >= ny * dx && ny * dz > nz * dy {
        assert(nx * dy * dz >= ny * dx * dz) by (nonlinear_arith)
            requires nx * dy >= ny * dx, dz > 0;
        assert(ny * dz * dx > nz * dy * dx) by (nonlinear_arith)
            requires ny * dz > nz * dy, dx > 0;
        assert(nx * dz > nz * dx) by (nonlinear_arith)
            requires nx * dy * dz >= ny * dx * dz, ny * dz * dx > nz * dy * dx, dy > 0;
    }
    if nx * dy == ny * dx && ny * dz == nz * dy {
        assert(nx * dz * dy == nz * dx * dy) by (nonlinear_arith)
            requires nx * dy == ny * dx, ny * dz == nz * dy;
        assert(nx * dz == nz * dx) by (nonlinear_arith)
            requires nx * dz * dy == nz * dx * dy, dy > 0;
    }
}

/// The product of two `i64` values fits an `i128`.
proof fn lemma_i64_product(a: i64, b: i64)
    ensures
        -0x4000_0000_0000_0000_0000_0000_0000_0000 <= a * b <= 0x4000_0000_0000_0000_0000_0000_0000_0000,
{
    assert(-0x4000_0000_0000_0000_0000_0000_0000_0000 <= a * b <= 0x4000_0000_0000_0000_0000_0000_0000_0000) by (nonlinear_arith)
        requires
            -0x8000_0000_0000_0000 <= a <= 0x7fff_ffff_ffff_ffff,
            -0x8000_0000_0000_0000 <= b <= 0x7fff_ffff_ffff_ffff;
}

/// A better key followed by one sorting no later is still beaten.
proof fn lemma_rr_chain(x: (u8, i64, i64), y: (u8, i64, i64), z: (u8, i64, i64))
    requires
        x.2 > 0,
        y.2 > 0,
        z.2 > 0,
        rr_better(x, y),
        rr_better(y, z) || rr_equiv(y, z),
    ensures
        rr_better(x, z),
{
    lemma_ratio_trans(x.1 as int, x.2 as int, y.1 as int, y.2 as int, z.1 as int, z.2 as int);
}

/// The positions of `keys` in stable ranked-ratio order.
pub fn ranked_ratio_order(keys: &Vec<(u8, i64, i64)>) -> (r: Vec<usize>)
    requires
        rr_valid(keys@),
    ensures
        rr_ordered(keys@, r@),
{
    let ghost k = keys@;
    let mut r: Vec<usize> = Vec::new();
    let mut i: usize = 0;
    while i < keys.len()
        invariant
            i <= keys.len(),
            k == keys@,
            rr_valid(k),
            r.len() == i,
            forall|a: int| 0 <= a < r.len() ==> #[trigger] r@[a] < i,
            forall|a: int, b: int| 0 <= a < b < r.len() ==> rr_before(k, r@[a] as int, r@[b] as int),
        decreases keys.len() - i,
    {
        let ki = keys[i];
        let mut q: usize = 0;
        while q < r.len()
            invariant
                q <= r.len(),
                i < keys.len(),
                ki == k[i as int],
                k == keys@,
                forall|a: int| 0 <= a < r.len() ==> #[trigger] r@[a] < i,
                forall|a: int| 0 <= a < q ==> rr_before(k, r@[a] as int, i as int),
            ensures
                q <= r.len(),
                q < r.len() ==> rr_better(k[i as int], k[r@[q as int] as int]),
                forall|a: int| 0 <= a < q ==> rr_before(k, r@[a] as int, i as int),
            decreases r.len() - q,
        {
            let kq = keys[r[q]];
            proof {
                lemma_i64_product(ki.1, kq.2);
                lemma_i64_product(kq.1, ki.2);
            }
            let lhs = (ki.1 as i128) * (kq.2 as i128);
            let rhs = (kq.1 as i128) * (ki.2 as i128);
            let better = ki.0 < kq.0 || (ki.0 == kq.0 && lhs > rhs);
            if better {
                break;
            }
            q = q + 1;
        }
        let ghost old_r = r@;
        r.insert(q, i);
        proof {
            assert(r@ =~= old_r.subrange(0, q as int).push(i).add(old_r.subrange(q as int, old_r.len() as int)));
            assert forall|a: int| 0 <= a < r.len() implies #[trigger] r@[a] < i + 1 by {
                if a < q {
                    assert(r@[a] == old_r[a]);
                } else if a > q {
                    assert(r@[a] == old_r[a - 1]);
                }
            }
            assert forall|a: int, b: int| 0 <= a < b < r.len() implies rr_before(k, r@[a] as int, r@[b] as int) by {
                if b < q {
                    assert(r@[a] == old_r[a] && r@[b] == old_r[b]);
                } else if b == q {
                    assert(r@[a] == old_r[a]);
                } else if a < q {
                    assert(r@[a] == old_r[a] && r@[b] == old_r[b - 1]);
                } else if a == q {
                    assert(r@[b] == old_r[b - 1]);
                    if b - 1 > q {
                        let y = old_r[q as int] as int;
                        let z = old_r[b - 1] as int;
                        assert(rr_before(k, y, z));
                        assert(k[y].2 > 0 && k[z].2 > 0 && k[i as int].2 > 0);
                        lemma_rr_chain(k[i as int], k[y], k[z]);
                    }
                } else {
                    assert(r@[a] == old_r[a - 1] && r@[b] == old_r[b - 1]);
                }
            }
        }
        i = i + 1;
    }
    r
}

/// `a` sorts strictly before `b` in lexicographic order by code point (the
/// order of `String`'s `Ord`, which compares the UTF-8 bytes).
pub open spec fn lex_lt(a: Seq<char>, b: Seq<char>) -> bool
    decreases a.len(),
{
    if a.len() == 0 {
        b.len() > 0
    } else if b.len() == 0 {
        false
    } else if a[0] != b[0] {
        a[0] < b[0]
    } else {
        lex_lt(a.drop_first(), b.drop_first())
    }
}

/// Lexicographic order is a strict total order.
proof fn lemma_lex(a: Seq<char>, b: Seq<char>, c: Seq<char>)
    ensures
        lex_lt(a, b) && lex_lt(b, c) ==> lex_lt(a, c),
        lex_lt(a, b) ==> !lex_lt(b, a) && a != b,
        a != b ==> lex_lt(a, b) || lex_lt(b, a),
    decreases a.len(),
{
    if a.len() > 0 && b.len() > 0 && c.len() > 0 {
        lemma_lex(a.drop_first(), b.drop_first(), c.drop_first());
    }
    if a.len() > 0 && b.len() > 0 && a[0] == b[0] && a != b {
        assert(a =~= seq![a[0]] + a.drop_first());
        assert(b =~= seq![b[0]] + b.drop_first());
        lemma_lex(a.drop_first(), b.drop_first(), c);
    }
    if a.len() > 0 && b.len() > 0 && a[0] == b[0] && lex_lt(a, b) {
        lemma_lex(a.drop_first(), b.drop_first(), c);
    }
    if a.len() == 0 && b.len() == 0 {
        assert(a =~= b);
    }
}

/// Row `i` comes before row `j` by text: a smaller text, or the same text
/// and an earlier position.
pub open spec fn text_before(k: Seq<Seq<char>>, i: int, j: int) -> bool {
    lex_lt(k[i], k[j]) || (k[i] == k[j] && i < j)
}

/// `r` lists positions `0..n` of `k` in stable text order.
pub open spec fn text_ordered(k: Seq<Seq<char>>, r: Seq<usize>) -> bool {
    &&& r.len() == k.len()
    &&& forall|a: int| 0 <= a < r.len() ==> #[trigger] r[a] < k.len()
    &&& forall|a: int, b: int| 0 <= a < b < r.len() ==> text_before(k, r[a] as int, r[b] as int)
}

/// Whether `a` sorts strictly before `b`.
pub fn str_lt(a: &str, b: &str) -> (r: bool)
    ensures
        r == lex_lt(a@, b@),
{
    let n = a.unicode_len();
    let m = b.unicode_len();
    let mut i: usize = 0;
    assert(a@.skip(0) =~= a@);
    assert(b@.skip(0) =~= b@);
    while i < n && i < m
        invariant
            n == a@.len(),
            m == b@.len(),
            i <= n,
            i <= m,
            forall|j: int| 0 <= j < i ==> a@[j] == b@[j],
            lex_lt(a@, b@) == lex_lt(a@.skip(i as int), b@.skip(i as int)),
        decreases n - i,
    {
        let x = a.get_char(i);
        let y = b.get_char(i);
        if x != y {
            assert(a@.skip(i as int)[0] == x && b@.skip(i as int)[0] == y);
            return x < y;
        }
        assert(a@.skip(i as int).drop_first() =~= a@.skip(i + 1));
        assert(b@.skip(i as int).drop_first() =~= b@.skip(i + 1));
        i = i + 1;
    }
    assert(a@.skip(i as int).len() == n - i);
    assert(b@.skip(i as int).len() == m - i);
    i < m
}

/// The positions of `texts` in stable ascending text order.
pub fn text_order(texts: &Vec<String>) -> (r: Vec<usize>)
    ensures
        text_ordered(crate::grouping::texts(texts@), r@),
{
    let ghost k = crate::grouping::texts(texts@);
    let mut r: Vec<usize> = Vec::new();
    let mut i: usize = 0;
    while i < texts.len()
        invariant
            i <= texts.len(),
            k == crate::grouping::texts(texts@),
            r.len() == i,
            forall|a: int| 0 <= a < r.len() ==> #[trigger] r@[a] < i,
            forall|a: int, b: int| 0 <= a < b < r.len() ==> text_before(k, r@[a] as int, r@[b] as int),
        decreases texts.len() - i,
    {
        let mut q: usize = 0;
        while q < r.len()
            invariant
                q <= r.len(),
                i < texts.len(),
                k == crate::grouping::texts(texts@),
                forall|a: int| 0 <= a < r.len() ==> #[trigger] r@[a] < i,
                forall|a: int| 0 <= a < q ==> text_before(k, r@[a] as int, i as int),
            ensures
                q <= r.len(),
                q < r.len() ==> lex_lt(k[i as int], k[r@[q as int] as int]),
                forall|a: int| 0 <= a < q ==> text_before(k, r@[a] as int, i as int),
            decreases r.len() - q,
        {
            let better = str_lt(texts[i].as_str(), texts[r[q]].as_str());
            if better {
                break;
            }
            proof {
                lemma_lex(k[i as int], k[r@[q as int] as int], k[i as int]);
            }
            q = q + 1;
        }
        let ghost old_r = r@;
        r.insert(q, i);
        proof {
            assert(r@ =~= old_r.subrange(0, q as int).push(i).add(old_r.subrange(q as int, old_r.len() as int)));
            assert forall|a: int| 0 <= a < r.len() implies #[trigger] r@[a] < i + 1 by {
                if a < q {
                    assert(r@[a] == old_r[a]);
                } else if a > q {
                    assert(r@[a] == old_r[a - 1]);
                }
            }
            assert forall|a: int, b: int| 0 <= a < b < r.len() implies text_before(k, r@[a] as int, r@[b] as int) by {
                if b < q {
                    assert(r@[a] == old_r[a] && r@[b] == old_r[b]);
                } else if b == q {
                    assert(r@[a] == old_r[a]);
                } else if a < q {
                    assert(r@[a] == old_r[a] && r@[b] == old_r[b - 1]);
                } else if a == q {
                    assert(r@[b] == old_r[b - 1]);
                    if b - 1 > q {
                        let y = old_r[q as int] as int;
                        let z = old_r[b - 1] as int;
                        assert(text_before(k, y, z));
                        lemma_lex(k[i as int], k[y], k[z]);
                    }
                } else {
                    assert(r@[a] == old_r[a - 1] && r@[b] == old_r[b - 1]);
                }
            }
        }
        i = i + 1;
    }
    r
}

/// A stable ranked-ratio ordering lists every position exactly once.
pub proof fn law_rr_order_is_permutation(k: Seq<(u8, i64, i64)>, r: Seq<usize>)
    requires
        rr_ordered(k, r),
        k.len() <= usize::MAX,
    ensures
        forall|a: int, b: int| 0 <= a < b < r.len() ==> r[a] != r[b],
        forall|i: usize| (i as int) < k.len() ==> #[trigger] r.contains(i),
{
    assert forall|a: int, b: int| 0 <= a < b < r.len() implies r[a] != r[b] by {
        assert(rr_before(k, r[a] as int, r[b] as int));
    }
    lemma_injective_onto(r, k.len() as int);
}

/// A stable text ordering lists every position exactly once.
pub proof fn law_text_order_is_permutation(k: Seq<Seq<char>>, r: Seq<usize>)
    requires
        text_ordered(k, r),
        k.len() <= usize::MAX,
    ensures
        forall|a: int, b: int| 0 <= a < b < r.len() ==> r[a] != r[b],
        forall|i: usize| (i as int) < k.len() ==> #[trigger] r.contains(i),
{
    assert forall|a: int, b: int| 0 <= a < b < r.len() implies r[a] != r[b] by {
        assert(text_before(k, r[a] as int, r[b] as int));
        if r[a] == r[b] {
            lemma_lex(k[r[a] as int], k[r[a] as int], k[r[a] as int]);
        }
    }
    lemma_injective_onto(r, k.len() as int);
}

/// Row `i` comes before row `j` by a pair of keys, both descending: a
/// larger first key, or an equal first key and a larger second one, or both
/// equal and an earlier position.
pub open spec fn pair_before(k: Seq<(i64, i64)>, i: int, j: int) -> bool {
    k[i].0 > k[j].0 || (k[i].0 == k[j].0 && (k[i].1 > k[j].1 || (k[i].1 == k[j].1 && i < j)))
}

/// `r` lists positions `0..n` of `k` in stable descending pair order.
pub open spec fn pair_ordered(k: Seq<(i64, i64)>, r: Seq<usize>) -> bool {
    &&& r.len() == k.len()
    &&& forall|a: int| 0 <= a < r.len() ==> #[trigger] r[a] < k.len()
    &&& forall|a: int, b: int| 0 <= a < b < r.len() ==> pair_before(k, r[a] as int, r[b] as int)
}

/// The positions of `keys` in stable descending pair order.
pub fn pair_order(keys: &Vec<(i64, i64)>) -> (r: Vec<usize>)
    ensures
        pair_ordered(keys@, r@),
{
    let ghost k = keys@;
    let mut r: Vec<usize> = Vec::new();
    let mut i: usize = 0;
    while i < keys.len()
        invariant
            i <= keys.len(),
            k == keys@,
            r.len() == i,
            forall|a: int| 0 <= a < r.len() ==> #[trigger] r@[a] < i,
            forall|a: int, b: int| 0 <= a < b < r.len() ==> pair_before(k, r@[a] as int, r@[b] as int),
        decreases keys.len() - i,
    {
        let ki = keys[i];
        let mut q: usize = 0;
        while q < r.len()
            invariant
                q <= r.len(),
                i < keys.len(),
                ki == k[i as int],
                k == keys@,
                forall|a: int| 0 <= a < r.len() ==> #[trigger] r@[a] < i,
                forall|a: int| 0 <= a < q ==> pair_before(k, r@[a] as int, i as int),
            ensures
                q <= r.len(),
                q < r.len() ==> pair_before(k, i as int, r@[q as int] as int),
                forall|a: int| 0 <= a < q ==> pair_before(k, r@[a] as int, i as int),
            decreases r.len() - q,
        {
            let kq = keys[r[q]];
            let better = ki.0 > kq.0 || (ki.0 == kq.0 && ki.1 > kq.1);
            if better {
                break;
            }
            q = q + 1;
        }
        let ghost old_r = r@;
        r.insert(q, i);
        proof {
            assert(r@ =~= old_r.subrange(0, q as int).push(i).add(old_r.subrange(q as int, old_r.len() as int)));
            assert forall|a: int| 0 <= a < r.len() implies #[trigger] r@[a] < i + 1 by {
                if a < q {
                    assert(r@[a] == old_r[a]);
                } else if a > q {
                    assert(r@[a] == old_r[a - 1]);
                }
            }
            assert forall|a: int, b: int| 0 <= a < b < r.len() implies pair_before(k, r@[a] as int, r@[b] as int) by {
                if b < q {
                    assert(r@[a] == old_r[a] && r@[b] == old_r[b]);
                } else if b == q {
                    assert(r@[a] == old_r[a]);
                } else if a < q {
                    assert(r@[a] == old_r[a] && r@[b] == old_r[b - 1]);
                } else if a == q {
                    assert(r@[b] == old_r[b - 1]);
                    if b - 1 > q {
                        assert(pair_before(k, old_r[q as int] as int, old_r[b - 1] as int));
                    }
                } else {
                    assert(r@[a] == old_r[a - 1] && r@[b] == old_r[b - 1]);
                }
            }
        }
        i = i + 1;
    }
    r
}

/// A stable pair ordering lists every position exactly once.
pub proof fn law_pair_order_is_permutation(k: Seq<(i64, i64)>, r: Seq<usize>)
    requires
        pair_ordered(k, r),
        k.len() <= usize::MAX,
    ensures
        forall|a: int, b: int| 0 <= a < b < r.len() ==> r[a] != r[b],
        forall|i: usize| (i as int) < k.len() ==> #[trigger] r.contains(i),
{
    assert forall|a: int, b: int| 0 <= a < b < r.len() implies r[a] != r[b] by {
        assert(pair_before(k, r[a] as int, r[b] as int));
    }
    lemma_injective_onto(r, k.len() as int);
}

} // verus!
