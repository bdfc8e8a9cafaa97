//! Stable ordering of hash ranges by their start offset.

use vstd::prelude::*;

verus! {

/// `x` placed into `s` after every element whose offset is at most `x`'s, scanning from
/// the back: the step of a stable insertion sort.
pub open spec fn insert_by_offset(x: (usize, usize), s: Seq<(usize, usize)>) -> Seq<(usize, usize)>
    decreases s.len(),
{
    if s.len() == 0 {
        seq![x]
    } else if s.last().0 <= x.0 {
        s.push(x)
    } else {
        insert_by_offset(x, s.drop_last()).push(s.last())
    }
}

/// `s` stably sorted by offset: elements with equal offsets keep their relative order.
pub open spec fn sort_by_offset(s: Seq<(usize, usize)>) -> Seq<(usize, usize)>
    decreases s.len(),
{
    if s.len() == 0 {
        s
    } else {
        insert_by_offset(s.last(), sort_by_offset(s.drop_last()))
    }
}

/// Offsets never decrease along `s`.
pub open spec fn sorted_by_offset(s: Seq<(usize, usize)>) -> bool {
    forall|i: int, j: int| 0 <= i < j < s.len() ==> s[i].0 <= s[j].0
}

/// Where `insert_by_offset` places `x`.
pub open spec fn insert_pos(x: (usize, usize), s: Seq<(usize, usize)>) -> int
    decreases s.len(),
{
    if s.len() == 0 {
        0
    } else if s.last().0 <= x.0 {
        s.len() as int
    } else {
        insert_pos(x, s.drop_last())
    }
}

/// `insert_by_offset` puts `x` just after the last element (scanning from the back) whose
/// offset does not exceed `x`'s.
pub proof fn lemma_insert_pos(x: (usize, usize), s: Seq<(usize, usize)>)
    ensures
        0 <= insert_pos(x, s) <= s.len(),
        insert_by_offset(x, s) == s.insert(insert_pos(x, s), x),
        forall|k: int| insert_pos(x, s) <= k < s.len() ==> s[k].0 > x.0,
        insert_pos(x, s) > 0 ==> s[insert_pos(x, s) - 1].0 <= x.0,
    decreases s.len(),
{
    if s.len() == 0 {
        assert(seq![x] =~= s.insert(0, x));
    } else if s.last().0 <= x.0 {
        assert(s.push(x) =~= s.insert(s.len() as int, x));
    } else {
        let t = s.drop_last();
        lemma_insert_pos(x, t);
        let p = insert_pos(x, t);
        assert(t.insert(p, x).push(s.last()) =~= s.insert(p, x));
        assert forall|k: int| p <= k < s.len() implies s[k].0 > x.0 by {
            if k < t.len() {
                assert(s[k] == t[k]);
            }
        }
    }
}

/// The position found by a backward scan over `s` is where `insert_by_offset` places `x`.
pub proof fn lemma_insert_at(x: (usize, usize), s: Seq<(usize, usize)>, p: int)
    requires
        0 <= p <= s.len(),
        forall|k: int| p <= k < s.len() ==> s[k].0 > x.0,
        p > 0 ==> s[p - 1].0 <= x.0,
    ensures
        insert_by_offset(x, s) == s.insert(p, x),
{
    lemma_insert_pos(x, s);
    let q = insert_pos(x, s);
    if q < p {
        assert(s[p - 1].0 > x.0);
    }
    if p < q {
        assert(s[q - 1].0 > x.0);
    }
}

/// Inserting into a sorted sequence keeps it sorted.
pub proof fn lemma_insert_sorted(x: (usize, usize), s: Seq<(usize, usize)>)
    requires
        sorted_by_offset(s),
    ensures
        sorted_by_offset(insert_by_offset(x, s)),
{
    lemma_insert_pos(x, s);
    let p = insert_pos(x, s);
    let r = s.insert(p, x);
    assert forall|i: int, j: int| 0 <= i < j < r.len() implies r[i].0 <= r[j].0 by {
        if j == p {
            assert(r[i] == s[i]);
            assert(s[i].0 <= s[p - 1].0);
        } else if i == p {
            assert(r[j] == s[j - 1]);
        } else if j < p {
            assert(r[i] == s[i] && r[j] == s[j]);
        } else if i < p {
            assert(r[i] == s[i] && r[j] == s[j - 1]);
        } else {
            assert(r[i] == s[i - 1] && r[j] == s[j - 1]);
        }
    }
}

/// Inserting adds exactly `x` to the elements.
pub proof fn lemma_insert_multiset(x: (usize, usize), s: Seq<(usize, usize)>)
    ensures
        insert_by_offset(x, s).to_multiset() == s.to_multiset().insert(x),
        insert_by_offset(x, s).len() == s.len() + 1,
    decreases s.len(),
{
    broadcast use vstd::seq_lib::to_multiset_build;
    if s.len() == 0 {
        assert(seq![x] =~= s.push(x));
    } else if s.last().0 <= x.0 {
    } else {
        let t = s.drop_last();
        lemma_insert_multiset(x, t);
        assert(t.push(s.last()) =~= s);
        assert(insert_by_offset(x, s).to_multiset() =~= s.to_multiset().insert(x));
    }
}

/// Sorting yields a sorted sequence holding the same elements.
pub proof fn lemma_sort_by_offset(s: Seq<(usize, usize)>)
    ensures
        sorted_by_offset(sort_by_offset(s)),
        sort_by_offset(s).to_multiset() == s.to_multiset(),
        sort_by_offset(s).len() == s.len(),
    decreases s.len(),
{
    broadcast use vstd::seq_lib::to_multiset_build;
    if s.len() > 0 {
        let t = s.drop_last();
        lemma_sort_by_offset(t);
        lemma_insert_sorted(s.last(), sort_by_offset(t));
        lemma_insert_multiset(s.last(), sort_by_offset(t));
        assert(t.push(s.last()) =~= s);
    }
}

/// The elements of `s` whose offset is `v`, in their order in `s`.
pub open spec fn with_offset(s: Seq<(usize, usize)>, v: usize) -> Seq<(usize, usize)>
    decreases s.len(),
{
    if s.len() == 0 {
        seq![]
    } else if s.last().0 == v {
        with_offset(s.drop_last(), v).push(s.last())
    } else {
        with_offset(s.drop_last(), v)
    }
}

/// Inserting `x` places it after every element that has its offset.
proof fn lemma_insert_keeps_ties(x: (usize, usize), t: Seq<(usize, usize)>, v: usize)
    ensures
        with_offset(insert_by_offset(x, t), v) == if x.0 == v {
            with_offset(t, v).push(x)
        } else {
            with_offset(t, v)
        },
    decreases t.len(),
{
    if t.len() == 0 {
        assert(seq![x].drop_last() =~= t);
    } else if t.last().0 <= x.0 {
        assert(t.push(x).drop_last() =~= t);
    } else {
        let dl = t.drop_last();
        lemma_insert_keeps_ties(x, dl, v);
        let ins = insert_by_offset(x, dl);
        assert(ins.push(t.last()).drop_last() =~= ins);
    }
}

/// The sort is stable: for every offset, the elements with that offset keep their order.
pub proof fn lemma_sort_is_stable(s: Seq<(usize, usize)>, v: usize)
    ensures
        with_offset(sort_by_offset(s), v) == with_offset(s, v),
    decreases s.len(),
{
    if s.len() > 0 {
        let dl = s.drop_last();
        lemma_sort_is_stable(dl, v);
        lemma_insert_keeps_ties(s.last(), sort_by_offset(dl), v);
    }
}

/// Stably sorts `v` by the first component of each pair.
pub fn sort_ranges_by_offset(v: &Vec<(usize, usize)>) -> (r: Vec<(usize, usize)>)
    ensures
        r@ == sort_by_offset(v@),
        sorted_by_offset(r@),
        r@.to_multiset() == v@.to_multiset(),
        forall|off: usize| #[trigger] with_offset(r@, off) == with_offset(v@, off),
{
    let mut out: Vec<(usize, usize)> = Vec::new();
    let n = v.len();
    let mut i: usize = 0;
    while i < n
        invariant
            n == v@.len(),
            i <= n,
            out@ == sort_by_offset(v@.take(i as int)),
        decreases n - i,
    {
        let x = v[i];
        let mut p = out.len();
        while p > 0 && out[p - 1].0 > x.0
            invariant
                p <= out@.len(),
                forall|k: int| p <= k < out@.len() ==> out@[k].0 > x.0,
            decreases p,
        {
            p = p - 1;
        }
        proof {
            lemma_insert_at(x, out@, p as int);
            assert(v@.take(i + 1).drop_last() =~= v@.take(i as int));
        }
        out.insert(p, x);
        i = i + 1;
    }
    assert(v@.take(n as int) =~= v@);
    proof {
        lemma_sort_by_offset(v@);
        assert forall|off: usize| #[trigger] with_offset(out@, off) == with_offset(v@, off) by {
            lemma_sort_is_stable(v@, off);
        }
    }
    out
}

} // verus!
