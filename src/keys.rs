use vstd::prelude::*;

use crate::timestamp::{group_time_order, TimeView, Timestamp};

verus! {

broadcast use group_time_order;

/// The timestamps of an association list, in list order.
pub open spec fn stamps<X>(v: Seq<(Timestamp, X)>) -> Seq<TimeView> {
    v.map_values(|e: (Timestamp, X)| e.0@)
}

/// The keys of a viewed association list, in list order.
pub open spec fn keys_of<X>(s: Seq<(TimeView, X)>) -> Seq<TimeView> {
    s.map_values(|e: (TimeView, X)| e.0)
}

/// Keys strictly increase along the list.
pub open spec fn sorted(ks: Seq<TimeView>) -> bool {
    forall|i: int, j: int| 0 <= i < j < ks.len() ==> (#[trigger] ks[i]).lt(#[trigger] ks[j])
}

pub open spec fn has_key(ks: Seq<TimeView>, t: TimeView) -> bool {
    exists|i: int| 0 <= i < ks.len() && ks[i] == t
}

/// The position of key `t` (meaningful when `has_key(ks, t)`).
pub open spec fn index_of(ks: Seq<TimeView>, t: TimeView) -> int {
    choose|i: int| 0 <= i < ks.len() && ks[i] == t
}

/// `k` separates the keys that are at most `t` from those after it.
pub open spec fn splits_le(ks: Seq<TimeView>, t: TimeView, k: int) -> bool {
    &&& 0 <= k <= ks.len()
    &&& forall|i: int| 0 <= i < k ==> (#[trigger] ks[i]).le(t)
    &&& forall|i: int| k <= i < ks.len() ==> t.lt(#[trigger] ks[i])
}

/// `k` separates the keys that are before `t` from the others.
pub open spec fn splits_lt(ks: Seq<TimeView>, t: TimeView, k: int) -> bool {
    &&& 0 <= k <= ks.len()
    &&& forall|i: int| 0 <= i < k ==> (#[trigger] ks[i]).lt(t)
    &&& forall|i: int| k <= i < ks.len() ==> t.le(#[trigger] ks[i])
}

/// How many keys are at most `t` (for a sorted list).
pub open spec fn count_le(ks: Seq<TimeView>, t: TimeView) -> int {
    choose|k: int| splits_le(ks, t, k)
}

/// How many keys are before `t` (for a sorted list).
pub open spec fn count_lt(ks: Seq<TimeView>, t: TimeView) -> int {
    choose|k: int| splits_lt(ks, t, k)
}

pub proof fn lemma_index_of(ks: Seq<TimeView>, i: int)
    requires
        sorted(ks),
        0 <= i < ks.len(),
    ensures
        has_key(ks, ks[i]),
        index_of(ks, ks[i]) == i,
{
    let j = index_of(ks, ks[i]);
    assert(0 <= j < ks.len() && ks[j] == ks[i]);
    if j < i {
        assert(ks[j].lt(ks[i]));
    } else if i < j {
        assert(ks[i].lt(ks[j]));
    }
}

pub proof fn lemma_count_le(ks: Seq<TimeView>, t: TimeView, k: int)
    requires
        sorted(ks),
        splits_le(ks, t, k),
    ensures
        count_le(ks, t) == k,
{
    let c = count_le(ks, t);
    assert(splits_le(ks, t, c));
    if c < k {
        assert(ks[c].le(t));
    } else if k < c {
        assert(ks[k].le(t));
    }
}

pub proof fn lemma_count_lt(ks: Seq<TimeView>, t: TimeView, k: int)
    requires
        sorted(ks),
        splits_lt(ks, t, k),
    ensures
        count_lt(ks, t) == k,
{
    let c = count_lt(ks, t);
    assert(splits_lt(ks, t, c));
    if c < k {
        assert(ks[c].lt(t));
    } else if k < c {
        assert(ks[k].lt(t));
    }
}

/// The first position whose key is not before `t`.
pub fn lower_bound<X>(v: &Vec<(Timestamp, X)>, t: &Timestamp) -> (r: usize)
    requires
        sorted(stamps(v@)),
    ensures
        splits_lt(stamps(v@), t@, r as int),
{
    let mut i: usize = 0;
    while i < v.len()
        invariant
            i <= v@.len(),
            sorted(stamps(v@)),
            forall|j: int| 0 <= j < i ==> (#[trigger] stamps(v@)[j]).lt(t@),
        decreases v@.len() - i,
    {
        if !v[i].0.precedes(t) {
            assert forall|j: int| i <= j < v@.len() implies t@.le(#[trigger] stamps(v@)[j]) by {
                if j > i {
                    assert(stamps(v@)[i as int].lt(stamps(v@)[j]));
                }
            }
            return i;
        }
        i = i + 1;
    }
    i
}

/// The first position whose key comes after `t`.
pub fn upper_bound<X>(v: &Vec<(Timestamp, X)>, t: &Timestamp) -> (r: usize)
    requires
        sorted(stamps(v@)),
    ensures
        splits_le(stamps(v@), t@, r as int),
{
    let mut i: usize = 0;
    while i < v.len()
        invariant
            i <= v@.len(),
            sorted(stamps(v@)),
            forall|j: int| 0 <= j < i ==> (#[trigger] stamps(v@)[j]).le(t@),
        decreases v@.len() - i,
    {
        if t.precedes(&v[i].0) {
            assert forall|j: int| i <= j < v@.len() implies t@.lt(#[trigger] stamps(v@)[j]) by {
                if j > i {
                    assert(stamps(v@)[i as int].lt(stamps(v@)[j]));
                }
            }
            return i;
        }
        i = i + 1;
    }
    i
}

/// Adds an entry `(t, x)` at its place in time order, unless `t` is already a key.
pub fn insert_absent<X>(v: &mut Vec<(Timestamp, X)>, t: &Timestamp, x: X)
    requires
        sorted(stamps(old(v)@)),
    ensures
        sorted(stamps(final(v)@)),
        splits_lt(stamps(old(v)@), t@, count_lt(stamps(old(v)@), t@)),
        has_key(stamps(old(v)@), t@) ==> final(v)@ == old(v)@,
        !has_key(stamps(old(v)@), t@) ==> {
            let p = count_lt(stamps(old(v)@), t@);
            &&& final(v)@ == old(v)@.insert(p, final(v)@[p])
            &&& final(v)@[p].0@ == t@
            &&& final(v)@[p].1 == x
        },
{
    let p = lower_bound(v, t);
    let ghost ks = stamps(v@);
    proof {
        lemma_count_lt(ks, t@, p as int);
    }
    if p < v.len() && v[p].0.same_as(t) {
        assert(has_key(ks, t@)) by {
            assert(ks[p as int] == t@);
        }
        return;
    }
    assert(!has_key(ks, t@)) by {
        if has_key(ks, t@) {
            let i = choose|i: int| 0 <= i < ks.len() && ks[i] == t@;
            if i > p {
                assert(ks[p as int].lt(ks[i]));
            }
        }
    }
    v.insert(p, (t.copied(), x));
    let ghost nks = stamps(v@);
    assert(nks =~= ks.insert(p as int, t@));
    assert forall|i: int, j: int| 0 <= i < j < nks.len() implies (#[trigger] nks[i]).lt(#[trigger] nks[j]) by {
        if j < p {
            assert(nks[i] == ks[i] && nks[j] == ks[j]);
        } else if j == p {
            assert(nks[i] == ks[i]);
        } else if i == p {
            assert(nks[j] == ks[j - 1]);
            assert(t@.le(ks[j - 1]));
        } else if i < p {
            assert(nks[i] == ks[i] && nks[j] == ks[j - 1]);
            assert(ks[i].lt(t@));
            assert(t@.le(ks[j - 1]));
        } else {
            assert(nks[i] == ks[i - 1] && nks[j] == ks[j - 1]);
        }
    }
}

/// The position of key `t`, which the list is known to hold.
pub fn find_key<X>(v: &Vec<(Timestamp, X)>, t: &Timestamp) -> (r: usize)
    requires
        sorted(stamps(v@)),
        has_key(stamps(v@), t@),
    ensures
        r < v@.len(),
        stamps(v@)[r as int] == t@,
        index_of(stamps(v@), t@) == r,
{
    let p = lower_bound(v, t);
    let ghost ks = stamps(v@);
    proof {
        let i = choose|i: int| 0 <= i < ks.len() && ks[i] == t@;
        if i > p {
            assert(ks[p as int].lt(ks[i]));
        }
        lemma_index_of(ks, p as int);
    }
    p
}

/// The position of key `t`, if the list holds it.
pub fn find<X>(v: &Vec<(Timestamp, X)>, t: &Timestamp) -> (r: Option<usize>)
    requires
        sorted(stamps(v@)),
    ensures
        r is Some <==> has_key(stamps(v@), t@),
        r matches Some(p) ==> p < v@.len() && stamps(v@)[p as int] == t@ && index_of(stamps(v@), t@) == p,
{
    let p = lower_bound(v, t);
    let ghost ks = stamps(v@);
    if p < v.len() && v[p].0.same_as(t) {
        proof {
            lemma_index_of(ks, p as int);
        }
        Some(p)
    } else {
        assert(!has_key(ks, t@)) by {
            if has_key(ks, t@) {
                let i = choose|i: int| 0 <= i < ks.len() && ks[i] == t@;
                if i > p {
                    assert(ks[p as int].lt(ks[i]));
                }
            }
        }
        None
    }
}

/// The keys of the list, in order.
pub fn times_of<X>(v: &Vec<(Timestamp, X)>) -> (r: Vec<Timestamp>)
    ensures
        r@.map_values(|x: Timestamp| x@) == stamps(v@),
{
    let mut r: Vec<Timestamp> = Vec::new();
    let mut i: usize = 0;
    while i < v.len()
        invariant
            i <= v@.len(),
            r@.map_values(|x: Timestamp| x@) =~= stamps(v@).subrange(0, i as int),
        decreases v@.len() - i,
    {
        let x = v[i].0.copied();
        let ghost before = r@;
        r.push(x);
        assert(r@ =~= before.push(x));
        assert(r@.map_values(|x: Timestamp| x@) =~= before.map_values(|x: Timestamp| x@).push(x@));
        assert(stamps(v@).subrange(0, i + 1) =~= stamps(v@).subrange(0, i as int).push(x@));
        i = i + 1;
    }
    assert(stamps(v@).subrange(0, v@.len() as int) =~= stamps(v@));
    r
}

} // verus!
