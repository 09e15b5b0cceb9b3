//! Grouping rows of a list by a text key, keeping the list's order: buckets
//! in first-seen order, or runs of equal adjacent keys.

use vstd::prelude::*;
use crate::text::str_eq;

verus! {

/// The texts of a list of strings.
pub open spec fn texts(v: Seq<String>) -> Seq<Seq<char>> {
    v.map_values(|s: String| s@)
}

/// The indices of a list of positions.
pub open spec fn ints(v: Seq<usize>) -> Seq<int> {
    v.map_values(|x: usize| x as int)
}

/// The distinct keys of `l`, in order of first appearance.
pub open spec fn distinct_keys(l: Seq<Seq<char>>) -> Seq<Seq<char>>
    decreases l.len(),
{
    if l.len() == 0 {
        Seq::empty()
    } else {
        let d = distinct_keys(l.drop_last());
        if d.contains(l.last()) {
            d
        } else {
            d.push(l.last())
        }
    }
}

/// The positions of `l` holding `k`, ascending.
pub open spec fn members_of(l: Seq<Seq<char>>, k: Seq<char>) -> Seq<int>
    decreases l.len(),
{
    if l.len() == 0 {
        Seq::empty()
    } else {
        let m = members_of(l.drop_last(), k);
        if l.last() == k {
            m.push(l.len() - 1)
        } else {
            m
        }
    }
}

/// The first-seen keys never repeat.
proof fn lemma_distinct_unique(l: Seq<Seq<char>>)
    ensures
        forall|a: int, b: int| 0 <= a < b < distinct_keys(l).len() ==> distinct_keys(l)[a] != distinct_keys(l)[b],
    decreases l.len(),
{
    if l.len() > 0 {
        lemma_distinct_unique(l.drop_last());
        let d = distinct_keys(l.drop_last());
        if !d.contains(l.last()) {
            assert forall|a: int| 0 <= a < d.len() implies d[a] != l.last() by {}
            assert forall|a: int, b: int| 0 <= a < b < distinct_keys(l).len() implies distinct_keys(l)[a] != distinct_keys(l)[b] by {
                if b == d.len() {
                    assert(distinct_keys(l)[a] == d[a]);
                } else {
                    assert(distinct_keys(l)[a] == d[a]);
                    assert(distinct_keys(l)[b] == d[b]);
                }
            }
        }
    }
}

/// Bucket the positions of `keys` by key: one group per distinct key, in
/// order of first appearance, each holding its positions in ascending order.
pub fn first_seen_groups(keys: &Vec<String>) -> (r: (Vec<String>, Vec<Vec<usize>>))
    ensures
        texts(r.0@) == distinct_keys(texts(keys@)),
        r.1.len() == r.0.len(),
        forall|g: int| 0 <= g < r.1.len() ==> ints(#[trigger] r.1@[g]@) == members_of(texts(keys@), r.0@[g]@),
{
    let ghost l = texts(keys@);
    let mut ks: Vec<String> = Vec::new();
    let mut idx: Vec<Vec<usize>> = Vec::new();
    let mut i: usize = 0;
    while i < keys.len()
        invariant
            i <= keys.len(),
            l == texts(keys@),
            texts(ks@) == distinct_keys(l.take(i as int)),
            idx.len() == ks.len(),
            forall|g: int| 0 <= g < idx.len() ==> ints(#[trigger] idx@[g]@) == members_of(l.take(i as int), ks@[g]@),
        decreases keys.len() - i,
    {
        let ghost li = l.take(i as int);
        let ghost li1 = l.take(i + 1);
        proof {
            assert(li1.drop_last() =~= li);
            assert(li1.last() == keys@[i as int]@);
            lemma_distinct_unique(li);
        }
        let mut g: usize = 0;
        while g < ks.len()
            invariant
                g <= ks.len(),
                i < keys.len(),
                forall|h: int| 0 <= h < g ==> ks@[h]@ != keys@[i as int]@,
            ensures
                g <= ks.len(),
                g < ks.len() ==> ks@[g as int]@ == keys@[i as int]@,
                forall|h: int| 0 <= h < g ==> ks@[h]@ != keys@[i as int]@,
            decreases ks.len() - g,
        {
            if str_eq(ks[g].as_str(), keys[i].as_str()) {
                break;
            }
            g = g + 1;
        }
        if g < ks.len() {
            let ghost before = idx@;
            let mut v = idx[g].clone();
            v.push(i);
            idx.set(g, v);
            proof {
                assert(texts(ks@)[g as int] == keys@[i as int]@);
                assert(distinct_keys(li).contains(li1.last()));
                assert(distinct_keys(li1) == distinct_keys(li));
                assert forall|h: int| 0 <= h < idx.len() implies ints(#[trigger] idx@[h]@) == members_of(li1, ks@[h]@) by {
                    if h == g {
                        assert(ints(idx@[h]@) =~= ints(before[h]@).push(i as int));
                    } else {
                        assert(texts(ks@)[h] != texts(ks@)[g as int]);
                        assert(idx@[h] == before[h]);
                    }
                }
            }
        } else {
            proof {
                assert forall|h: int| 0 <= h < ks.len() implies texts(ks@)[h] != li1.last() by {
                    assert(texts(ks@)[h] == ks@[h]@);
                }
                assert(!distinct_keys(li).contains(li1.last()));
            }
            let ghost before = idx@;
            let ghost ks_before = ks@;
            ks.push(keys[i].clone());
            let mut v: Vec<usize> = Vec::new();
            v.push(i);
            idx.push(v);
            proof {
                assert(texts(ks@) =~= texts(ks_before).push(li1.last()));
                assert forall|h: int| 0 <= h < idx.len() implies ints(#[trigger] idx@[h]@) == members_of(li1, ks@[h]@) by {
                    if h == idx.len() - 1 {
                        lemma_members_absent(li, li1.last());
                        assert(ints(idx@[h]@) =~= seq![i as int]);
                    } else {
                        assert(idx@[h] == before[h]);
                        assert(ks@[h] == ks_before[h]);
                        assert(texts(ks_before)[h] != li1.last());
                    }
                }
            }
        }
        i = i + 1;
    }
    assert(l.take(keys.len() as int) =~= l);
    (ks, idx)
}

/// A key not among the first-seen keys has no positions.
proof fn lemma_members_absent(l: Seq<Seq<char>>, k: Seq<char>)
    requires
        !distinct_keys(l).contains(k),
    ensures
        members_of(l, k) == Seq::<int>::empty(),
    decreases l.len(),
{
    if l.len() > 0 {
        let d = distinct_keys(l.drop_last());
        if d.contains(k) {
            let j = choose|j: int| 0 <= j < d.len() && d[j] == k;
            assert(distinct_keys(l)[j] == k);
        }
        lemma_members_absent(l.drop_last(), k);
        if l.last() == k {
            assert(distinct_keys(l).contains(k)) by {
                if !d.contains(l.last()) {
                    assert(distinct_keys(l)[d.len() as int] == k);
                }
            }
        }
    }
}

/// Law (every row lands in its key's group, and only there): each position
/// of the list is among the members of its own key, that key is one of the
/// groups, and every member of a group holds that group's key.
pub proof fn law_groups_cover(l: Seq<Seq<char>>, k: Seq<char>)
    ensures
        forall|i: int| 0 <= i < l.len() ==> distinct_keys(l).contains(#[trigger] l[i]) && members_of(l, l[i]).contains(i),
        forall|t: int| 0 <= t < members_of(l, k).len() ==> {
            let i = #[trigger] members_of(l, k)[t];
            0 <= i < l.len() && l[i] == k
        },
    decreases l.len(),
{
    if l.len() > 0 {
        let p = l.drop_last();
        law_groups_cover(p, k);
        assert forall|i: int| 0 <= i < l.len() implies distinct_keys(l).contains(#[trigger] l[i]) && members_of(l, l[i]).contains(i) by {
            let d = distinct_keys(p);
            if i < l.len() - 1 {
                law_groups_cover(p, l[i]);
                assert(p[i] == l[i]);
                let j = choose|j: int| 0 <= j < d.len() && d[j] == l[i];
                if d.contains(l.last()) {
                    assert(distinct_keys(l)[j] == l[i]);
                } else {
                    assert(distinct_keys(l)[j] == l[i]);
                }
                let m = members_of(p, l[i]);
                let t = choose|t: int| 0 <= t < m.len() && m[t] == i;
                assert(members_of(l, l[i])[t] == i);
            } else {
                if !d.contains(l.last()) {
                    assert(distinct_keys(l)[d.len() as int] == l[i]);
                }
                let m = members_of(p, l[i]);
                assert(members_of(l, l[i])[m.len() as int] == i);
            }
        }
        assert forall|t: int| 0 <= t < members_of(l, k).len() implies {
            let i = #[trigger] members_of(l, k)[t];
            0 <= i < l.len() && l[i] == k
        } by {
            let m = members_of(p, k);
            if t < m.len() {
                assert(members_of(l, k)[t] == m[t]);
                assert(l[m[t]] == p[m[t]]);
            }
        }
    }
}

/// The runs of equal adjacent keys of `l`: each run's key and positions.
pub open spec fn runs(l: Seq<Seq<char>>) -> Seq<(Seq<char>, Seq<int>)>
    decreases l.len(),
{
    if l.len() == 0 {
        Seq::empty()
    } else {
        let r = runs(l.drop_last());
        let n = l.len() - 1;
        if r.len() > 0 && r.last().0 == l.last() {
            r.update(r.len() - 1, (r.last().0, r.last().1.push(n)))
        } else {
            r.push((l.last(), seq![n]))
        }
    }
}

/// Split the positions of `keys` into runs of equal adjacent keys, in order.
#[verifier::spinoff_prover]
pub fn adjacent_groups(keys: &Vec<String>) -> (r: (Vec<String>, Vec<Vec<usize>>))
    ensures
        r.0.len() == r.1.len(),
        r.0.len() == runs(texts(keys@)).len(),
        forall|g: int| 0 <= g < r.0.len() ==> (#[trigger] r.0@[g])@ == runs(texts(keys@))[g].0
            && ints(r.1@[g]@) == runs(texts(keys@))[g].1,
{
    let ghost l = texts(keys@);
    let mut ks: Vec<String> = Vec::new();
    let mut idx: Vec<Vec<usize>> = Vec::new();
    let mut i: usize = 0;
    while i < keys.len()
        invariant
            i <= keys.len(),
            l == texts(keys@),
            ks.len() == idx.len(),
            ks.len() == runs(l.take(i as int)).len(),
            forall|g: int| 0 <= g < ks.len() ==> (#[trigger] ks@[g])@ == runs(l.take(i as int))[g].0
                && ints(idx@[g]@) == runs(l.take(i as int))[g].1,
        decreases keys.len() - i,
    {
        let ghost li = l.take(i as int);
        let ghost li1 = l.take(i + 1);
        proof {
            assert(li1.drop_last() =~= li);
            assert(li1.last() == keys@[i as int]@);
        }
        let n = ks.len();
        let same = n > 0 && str_eq(ks[n - 1].as_str(), keys[i].as_str());
        let ghost before_ks = ks@;
        let ghost before_idx = idx@;
        if same {
            let mut v = idx[n - 1].clone();
            assert(v@ =~= before_idx[n - 1]@);
            let ghost v0 = v@;
            v.push(i);
            assert(v@ == v0.push(i));
            idx.set(n - 1, v);
            proof {
                let rr = runs(li);
                assert(ks@[n - 1]@ == rr[n - 1].0);
                assert(rr.last().0 == li1.last());
                assert(runs(li1) == rr.update(rr.len() - 1, (rr.last().0, rr.last().1.push(i as int))));
                assert forall|g: int| 0 <= g < ks.len() implies (#[trigger] ks@[g])@ == runs(li1)[g].0
                    && ints(idx@[g]@) == runs(li1)[g].1 by {
                    if g == n - 1 {
                        assert(idx@[g]@ == before_idx[g]@.push(i));
                        assert(ints(before_idx[g]@) == rr[g].1);
                        assert(ints(idx@[g]@) =~= ints(before_idx[g]@).push(i as int));
                    } else {
                        assert(idx@[g] == before_idx[g]);
                        assert(runs(li1)[g] == rr[g]);
                    }
                    assert(ks@[g]@ == runs(li1)[g].0);
                    assert(ints(idx@[g]@) == runs(li1)[g].1);
                }
            }
        } else {
            ks.push(keys[i].clone());
            let mut v: Vec<usize> = Vec::new();
            v.push(i);
            idx.push(v);
            proof {
                let rr = runs(li);
                if n > 0 {
                    assert(before_ks[n - 1]@ == rr[n - 1].0);
                }
                assert(runs(li1) == rr.push((li1.last(), seq![i as int])));
                assert forall|g: int| 0 <= g < ks.len() implies (#[trigger] ks@[g])@ == runs(li1)[g].0
                    && ints(idx@[g]@) == runs(li1)[g].1 by {
                    if g == n {
                        assert(ints(idx@[g]@) =~= seq![i as int]);
                    } else {
                        assert(ks@[g] == before_ks[g]);
                        assert(idx@[g] == before_idx[g]);
                        assert(before_ks[g]@ == rr[g].0);
                        assert(runs(li1)[g] == rr[g]);
                    }
                }
            }
        }
        i = i + 1;
    }
    assert(l.take(keys.len() as int) =~= l);
    (ks, idx)
}

/// The positions of all runs, one run after another.
pub open spec fn flatten_runs(r: Seq<(Seq<char>, Seq<int>)>) -> Seq<int>
    decreases r.len(),
{
    if r.len() == 0 {
        Seq::empty()
    } else {
        flatten_runs(r.drop_last()) + r.last().1
    }
}

/// Law (grouping by day keeps the list's order): the runs, read one after
/// another, list every position once in order; each run holds one key, and
/// two neighbouring runs have different keys.
pub proof fn law_runs_in_order(l: Seq<Seq<char>>)
    ensures
        flatten_runs(runs(l)) == Seq::new(l.len(), |i: int| i),
        forall|g: int| 0 <= g < runs(l).len() ==> forall|t: int| 0 <= t < (#[trigger] runs(l)[g]).1.len() ==> l[runs(l)[g].1[t]] == runs(l)[g].0,
        forall|g: int| 0 < g < runs(l).len() ==> (#[trigger] runs(l)[g]).0 != runs(l)[g - 1].0,
    decreases l.len(),
{
    if l.len() > 0 {
        let p = l.drop_last();
        law_runs_in_order(p);
        let r = runs(p);
        let n = l.len() - 1;
        assert(forall|i: int| 0 <= i < p.len() ==> p[i] == l[i]);
        if r.len() > 0 && r.last().0 == l.last() {
            let rl = runs(l);
            assert(rl.drop_last() =~= r.drop_last());
            assert(flatten_runs(rl) =~= flatten_runs(r.drop_last()) + r.last().1.push(n));
            assert(flatten_runs(r) == flatten_runs(r.drop_last()) + r.last().1);
            assert(flatten_runs(rl) =~= flatten_runs(r).push(n));
            assert(flatten_runs(r) == Seq::new(p.len(), |i: int| i));
            assert(flatten_runs(rl) =~= Seq::new(l.len(), |i: int| i));
            assert forall|g: int| 0 <= g < rl.len() implies forall|t: int| 0 <= t < (#[trigger] rl[g]).1.len() ==> l[rl[g].1[t]] == rl[g].0 by {
                if g < rl.len() - 1 {
                    assert(rl[g] == r[g]);
                    assert forall|t: int| 0 <= t < rl[g].1.len() implies l[rl[g].1[t]] == rl[g].0 by {
                        lemma_run_positions(p, g, t);
                    }
                } else {
                    assert forall|t: int| 0 <= t < rl[g].1.len() implies l[rl[g].1[t]] == rl[g].0 by {
                        if t < r.last().1.len() {
                            lemma_run_positions(p, r.len() - 1, t);
                        }
                    }
                }
            }
        } else {
            let rl = runs(l);
            assert(rl.drop_last() =~= r);
            assert(rl.last().1 == seq![n]);
            assert(flatten_runs(rl) == flatten_runs(rl.drop_last()) + rl.last().1);
            assert(flatten_runs(rl) =~= Seq::new(l.len(), |i: int| i));
            assert forall|g: int| 0 <= g < rl.len() implies forall|t: int| 0 <= t < (#[trigger] rl[g]).1.len() ==> l[rl[g].1[t]] == rl[g].0 by {
                if g < rl.len() - 1 {
                    assert(rl[g] == r[g]);
                    assert forall|t: int| 0 <= t < rl[g].1.len() implies l[rl[g].1[t]] == rl[g].0 by {
                        lemma_run_positions(p, g, t);
                    }
                }
            }
        }
    }
}

/// A run's positions lie in the list and hold the run's key.
proof fn lemma_run_positions(l: Seq<Seq<char>>, g: int, t: int)
    requires
        0 <= g < runs(l).len(),
        0 <= t < runs(l)[g].1.len(),
    ensures
        0 <= runs(l)[g].1[t] < l.len(),
        l[runs(l)[g].1[t]] == runs(l)[g].0,
    decreases l.len(),
{
    let p = l.drop_last();
    let r = runs(p);
    let n = l.len() - 1;
    if r.len() > 0 && r.last().0 == l.last() {
        if g < r.len() - 1 || t < r.last().1.len() {
            lemma_run_positions(p, g, t);
        }
    } else {
        if g < r.len() {
            lemma_run_positions(p, g, t);
        }
    }
}

} // verus!
