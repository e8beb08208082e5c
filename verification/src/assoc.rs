//! Insertion-ordered association lists keyed by strings: the shape of every
//! store in this crate.

use vstd::prelude::*;

use crate::text::str_eq;

verus! {

/// The value at `k`, if any; the first binding wins.
pub open spec fn assoc_get<V>(m: Seq<(Seq<char>, V)>, k: Seq<char>) -> Option<V>
    decreases m.len(),
{
    if m.len() == 0 {
        Option::None
    } else if m[0].0 == k {
        Option::Some(m[0].1)
    } else {
        assoc_get(m.skip(1), k)
    }
}

/// `m` with `k` bound to `v`: the first binding of `k` replaced, or a new
/// binding appended.
pub open spec fn assoc_set<V>(m: Seq<(Seq<char>, V)>, k: Seq<char>, v: V) -> Seq<(Seq<char>, V)>
    decreases m.len(),
{
    if m.len() == 0 {
        seq![(k, v)]
    } else if m[0].0 == k {
        seq![(k, v)] + m.skip(1)
    } else {
        seq![m[0]] + assoc_set(m.skip(1), k, v)
    }
}

/// No key is bound twice.
pub open spec fn distinct_keys<V>(m: Seq<(Seq<char>, V)>) -> bool {
    forall|i: int, j: int| 0 <= i < j < m.len() ==> (#[trigger] m[i].0) != (#[trigger] m[j].0)
}

/// At the first index holding `k`, `assoc_get` reads and `assoc_set` writes.
pub proof fn lemma_assoc_found<V>(m: Seq<(Seq<char>, V)>, k: Seq<char>, v: V, i: int)
    requires
        0 <= i < m.len(),
        m[i].0 == k,
        forall|j: int| 0 <= j < i ==> (#[trigger] m[j].0) != k,
    ensures
        assoc_get(m, k) == Option::Some(m[i].1),
        assoc_set(m, k, v) == m.update(i, (k, v)),
    decreases i,
{
    if i == 0 {
        assert(seq![(k, v)] + m.skip(1) =~= m.update(0, (k, v)));
    } else {
        lemma_assoc_found(m.skip(1), k, v, i - 1);
        assert(m.skip(1)[i - 1] == m[i]);
        assert(forall|j: int| 0 <= j < i - 1 ==> (#[trigger] m.skip(1)[j].0) == m[j + 1].0);
        assert(seq![m[0]] + m.skip(1).update(i - 1, (k, v)) =~= m.update(i, (k, v)));
    }
}

/// When no binding holds `k`, `assoc_get` misses and `assoc_set` appends.
pub proof fn lemma_assoc_absent<V>(m: Seq<(Seq<char>, V)>, k: Seq<char>, v: V)
    requires
        forall|j: int| 0 <= j < m.len() ==> (#[trigger] m[j].0) != k,
    ensures
        assoc_get(m, k) is None,
        assoc_set(m, k, v) == m.push((k, v)),
    decreases m.len(),
{
    if m.len() > 0 {
        assert(forall|j: int| 0 <= j < m.skip(1).len() ==> (#[trigger] m.skip(1)[j].0) == m[j
            + 1].0);
        lemma_assoc_absent(m.skip(1), k, v);
        assert(seq![m[0]] + m.skip(1).push((k, v)) =~= m.push((k, v)));
    } else {
        assert(m.push((k, v)) =~= seq![(k, v)]);
    }
}

/// Every entry of `assoc_set(m, k, v)` is the new binding or one of `m`.
pub proof fn lemma_assoc_set_entries<V>(m: Seq<(Seq<char>, V)>, k: Seq<char>, v: V)
    ensures
        forall|i: int| 0 <= i < assoc_set(m, k, v).len() ==> (#[trigger] assoc_set(m, k, v)[i])
            == (k, v) || m.contains(assoc_set(m, k, v)[i]),
    decreases m.len(),
{
    if m.len() == 0 {
        assert(assoc_set(m, k, v) =~= seq![(k, v)]);
    } else if m[0].0 == k {
        assert forall|i: int| 0 <= i < assoc_set(m, k, v).len() implies (#[trigger] assoc_set(
            m,
            k,
            v,
        )[i]) == (k, v) || m.contains(assoc_set(m, k, v)[i]) by {
            if i >= 1 {
                assert(assoc_set(m, k, v)[i] == m.skip(1)[i - 1]);
                assert(m.skip(1)[i - 1] == m[i]);
            }
        }
    } else {
        lemma_assoc_set_entries(m.skip(1), k, v);
        assert forall|i: int| 0 <= i < assoc_set(m, k, v).len() implies (#[trigger] assoc_set(
            m,
            k,
            v,
        )[i]) == (k, v) || m.contains(assoc_set(m, k, v)[i]) by {
            if i == 0 {
                assert(assoc_set(m, k, v)[0] == m[0]);
                assert(m.contains(m[0]));
            } else {
                assert(assoc_set(m, k, v)[i] == assoc_set(m.skip(1), k, v)[i - 1]);
                if assoc_set(m.skip(1), k, v)[i - 1] != (k, v) {
                    assert(m.skip(1).contains(assoc_set(m.skip(1), k, v)[i - 1]));
                    let w = choose|w: int|
                        0 <= w < m.skip(1).len() && m.skip(1)[w] == assoc_set(m.skip(1), k, v)[i
                            - 1];
                    assert(m[w + 1] == assoc_set(m, k, v)[i]);
                    assert(m.contains(m[w + 1]));
                }
            }
        }
    }
}

/// The first entry whose key equals `key`, scanning from the front.
pub fn assoc_find<V>(entries: &Vec<(String, V)>, key: &str) -> (r: Option<usize>)
    ensures
        match r {
            Option::Some(i) => i < entries@.len() && entries@[i as int].0@ == key@ && (forall|
                j: int,
            | 0 <= j < i ==> (#[trigger] entries@[j].0@) != key@),
            Option::None => forall|j: int|
                0 <= j < entries@.len() ==> (#[trigger] entries@[j].0@) != key@,
        },
{
    let mut i: usize = 0;
    while i < entries.len()
        invariant
            i <= entries@.len(),
            forall|j: int| 0 <= j < i ==> (#[trigger] entries@[j].0@) != key@,
        decreases entries@.len() - i,
    {
        if str_eq(entries[i].0.as_str(), key) {
            return Option::Some(i);
        }
        i += 1;
    }
    Option::None
}

} // verus!
