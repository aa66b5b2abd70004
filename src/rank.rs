//! Stable ordering of keyed items, largest key first.
use vstd::prelude::*;

verus! {

/// Where an item with key `key` goes among `s`, scanning from `j`: before
/// the first item whose key is not larger.
pub open spec fn slot_from<T>(s: Seq<(usize, T)>, key: usize, j: int) -> int
    decreases s.len() - j,
{
    if j < 0 || j >= s.len() {
        s.len() as int
    } else if s[j].0 <= key {
        j
    } else {
        slot_from(s, key, j + 1)
    }
}

/// The items ordered by key, largest first; items with equal keys keep
/// their order.
pub open spec fn ranked<T>(s: Seq<(usize, T)>) -> Seq<(usize, T)>
    decreases s.len(),
{
    if s.len() == 0 {
        Seq::empty()
    } else {
        let rest = ranked(s.drop_first());
        rest.insert(slot_from(rest, s[0].0, 0), s[0])
    }
}

pub proof fn lemma_slot_from_le<T>(s: Seq<(usize, T)>, key: usize, j: int)
    requires
        0 <= j <= s.len(),
    ensures
        j <= slot_from(s, key, j) <= s.len(),
    decreases s.len() - j,
{
    if j < s.len() && s[j].0 > key {
        lemma_slot_from_le(s, key, j + 1);
    }
}

pub proof fn lemma_slot_in_range<T>(s: Seq<(usize, T)>, key: usize)
    ensures
        0 <= slot_from(s, key, 0) <= s.len(),
{
    lemma_slot_from_le(s, key, 0);
}

/// Orders the items by key, largest first, keeping the order of equal keys.
pub fn rank_desc<T>(items: Vec<(usize, T)>) -> (r: Vec<(usize, T)>)
    ensures
        r@ == ranked(items@),
{
    let ghost all = items@;
    let mut rest = items;
    let mut out: Vec<(usize, T)> = Vec::new();
    proof {
        assert(all.subrange(all.len() as int, all.len() as int) =~= Seq::<(usize, T)>::empty());
    }
    while rest.len() > 0
        invariant
            rest@ == all.subrange(0, rest@.len() as int),
            rest@.len() <= all.len(),
            out@ == ranked(all.subrange(rest@.len() as int, all.len() as int)),
        decreases rest@.len(),
    {
        let ghost n = rest@.len();
        let item = rest.pop().unwrap();
        let key = item.0;
        let mut j: usize = 0;
        proof {
            lemma_slot_from_le(out@, key, 0);
        }
        while j < out.len() && out[j].0 > key
            invariant
                0 <= j <= out@.len(),
                slot_from(out@, key, 0) == slot_from(out@, key, j as int),
            decreases out@.len() - j,
        {
            j = j + 1;
        }
        proof {
            let sub = all.subrange(n - 1, all.len() as int);
            assert(sub.drop_first() =~= all.subrange(n as int, all.len() as int));
            assert(sub[0] == item);
        }
        out.insert(j, item);
    }
    proof {
        assert(all.subrange(0, all.len() as int) =~= all);
    }
    out
}


/// Keys never grow from front to back.
pub open spec fn sorted_desc<T>(s: Seq<(usize, T)>) -> bool {
    forall|i: int, j: int| 0 <= i < j < s.len() ==> #[trigger] s[i].0 >= #[trigger] s[j].0
}

proof fn lemma_slot_bounds<T>(s: Seq<(usize, T)>, key: usize, j: int)
    requires
        0 <= j <= s.len(),
        forall|t: int| 0 <= t < j ==> #[trigger] s[t].0 > key,
    ensures
        forall|t: int| 0 <= t < slot_from(s, key, j) ==> #[trigger] s[t].0 > key,
        slot_from(s, key, j) < s.len() ==> s[slot_from(s, key, j)].0 <= key,
    decreases s.len() - j,
{
    if j < s.len() && s[j].0 > key {
        lemma_slot_bounds(s, key, j + 1);
    }
}

/// Inserting at its slot keeps a sorted sequence sorted.
proof fn lemma_insert_sorted<T>(s: Seq<(usize, T)>, x: (usize, T))
    requires
        sorted_desc(s),
    ensures
        sorted_desc(s.insert(slot_from(s, x.0, 0), x)),
{
    lemma_slot_bounds(s, x.0, 0);
    lemma_slot_from_le(s, x.0, 0);
    let p = slot_from(s, x.0, 0);
    let r = s.insert(p, x);
    assert forall|i: int, j: int| 0 <= i < j < r.len() implies #[trigger] r[i].0 >= #[trigger] r[j].0 by {
        if j < p {
            assert(r[i] == s[i] && r[j] == s[j]);
        } else if j == p {
            assert(r[i] == s[i]);
        } else if i == p {
            assert(r[j] == s[j - 1]);
            assert(s[p].0 <= x.0);
            if j - 1 > p {
                assert(s[p].0 >= s[j - 1].0);
            }
        } else if i < p {
            assert(r[i] == s[i] && r[j] == s[j - 1]);
        } else {
            assert(r[i] == s[i - 1] && r[j] == s[j - 1]);
        }
    }
}

/// The ranking is ordered by key, largest first, and has the input's length.
pub proof fn lemma_ranked_sorted<T>(s: Seq<(usize, T)>)
    ensures
        sorted_desc(ranked(s)),
        ranked(s).len() == s.len(),
    decreases s.len(),
{
    if s.len() > 0 {
        lemma_ranked_sorted(s.drop_first());
        lemma_insert_sorted(ranked(s.drop_first()), s[0]);
        lemma_slot_from_le(ranked(s.drop_first()), s[0].0, 0);
    }
}

} // verus!
