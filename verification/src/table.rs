//! Tables of keyed rows as maps.

use vstd::prelude::*;

verus! {

/// Whether no two rows have the same key.
pub open spec fn distinct_keys<K, V>(s: Seq<(K, V)>) -> bool {
    forall|i: int, j: int| 0 <= i < j < s.len() ==> (#[trigger] s[i]).0 != (#[trigger] s[j]).0
}

/// The rows by key.
pub open spec fn rows_map<K, V>(s: Seq<(K, V)>) -> Map<K, V>
    decreases s.len(),
{
    if s.len() == 0 {
        Map::empty()
    } else {
        rows_map(s.drop_last()).insert(s.last().0, s.last().1)
    }
}

/// The keys of the map are the keys of the rows, with their values.
pub proof fn lemma_rows_map<K, V>(s: Seq<(K, V)>)
    ensures
        forall|k: K| #[trigger]
            rows_map(s).dom().contains(k) <==> exists|i: int|
                0 <= i < s.len() && (#[trigger] s[i]).0 == k,
        distinct_keys(s) ==> forall|i: int|
            0 <= i < s.len() ==> rows_map(s)[(#[trigger] s[i]).0] == s[i].1,
    decreases s.len(),
{
    if s.len() > 0 {
        let shorter = s.drop_last();
        lemma_rows_map(shorter);
        let last = s.len() - 1;
        assert forall|k: K| #[trigger]
            rows_map(s).dom().contains(k) <==> exists|i: int|
                0 <= i < s.len() && (#[trigger] s[i]).0 == k by {
            if rows_map(s).dom().contains(k) {
                if k == s.last().0 {
                    assert(s[last].0 == k);
                } else {
                    assert(rows_map(shorter).dom().contains(k));
                    let i = choose|i: int| 0 <= i < shorter.len() && (#[trigger] shorter[i]).0 == k;
                    assert(s[i] == shorter[i]);
                }
            }
            if exists|i: int| 0 <= i < s.len() && (#[trigger] s[i]).0 == k {
                let i = choose|i: int| 0 <= i < s.len() && (#[trigger] s[i]).0 == k;
                if i < last {
                    assert(shorter[i] == s[i]);
                    assert(rows_map(shorter).dom().contains(k));
                }
            }
        }
        if distinct_keys(s) {
            assert(distinct_keys(shorter)) by {
                assert forall|i: int, j: int| 0 <= i < j < shorter.len() implies (
                #[trigger] shorter[i]).0 != (#[trigger] shorter[j]).0 by {
                    assert(shorter[i] == s[i] && shorter[j] == s[j]);
                }
            }
            assert forall|i: int| 0 <= i < s.len() implies rows_map(s)[(#[trigger] s[i]).0]
                == s[i].1 by {
                if i < last {
                    assert(shorter[i] == s[i]);
                    assert(s[i].0 != s[last].0);
                }
            }
        }
    }
}

/// A new value for a row is a new value for its key.
pub proof fn lemma_rows_update<K, V>(s: Seq<(K, V)>, i: int, v: V)
    requires
        distinct_keys(s),
        0 <= i < s.len(),
    ensures
        distinct_keys(s.update(i, (s[i].0, v))),
        rows_map(s.update(i, (s[i].0, v))) == rows_map(s).insert(s[i].0, v),
{
    let next = s.update(i, (s[i].0, v));
    assert forall|a: int, b: int| 0 <= a < b < next.len() implies (#[trigger] next[a]).0 != (
    #[trigger] next[b]).0 by {
        assert(next[a].0 == s[a].0 && next[b].0 == s[b].0);
    }
    lemma_rows_map(s);
    lemma_rows_map(next);
    let m = rows_map(s).insert(s[i].0, v);
    assert forall|k: K| rows_map(next).dom().contains(k) <==> m.dom().contains(k) by {
        if rows_map(next).dom().contains(k) {
            let a = choose|a: int| 0 <= a < next.len() && (#[trigger] next[a]).0 == k;
            assert(s[a].0 == k);
        }
        if m.dom().contains(k) {
            if k == s[i].0 {
                assert(next[i].0 == k);
            } else {
                let a = choose|a: int| 0 <= a < s.len() && (#[trigger] s[a]).0 == k;
                assert(next[a].0 == k);
            }
        }
    }
    assert forall|k: K| rows_map(next).dom().contains(k) implies rows_map(next)[k] == m[k] by {
        let a = choose|a: int| 0 <= a < next.len() && (#[trigger] next[a]).0 == k;
        assert(rows_map(next)[next[a].0] == next[a].1);
        if a != i {
            assert(next[a] == s[a]);
            assert(rows_map(s)[s[a].0] == s[a].1);
            if a < i {
                assert(s[a].0 != s[i].0);
            } else {
                assert(s[i].0 != s[a].0);
            }
        }
    }
    assert(rows_map(next) =~= m);
}

/// A row with a new key is a new entry.
pub proof fn lemma_rows_push<K, V>(s: Seq<(K, V)>, k: K, v: V)
    requires
        distinct_keys(s),
        !rows_map(s).dom().contains(k),
    ensures
        distinct_keys(s.push((k, v))),
        rows_map(s.push((k, v))) == rows_map(s).insert(k, v),
{
    let next = s.push((k, v));
    assert(next.drop_last() =~= s);
    lemma_rows_map(s);
    assert forall|a: int, b: int| 0 <= a < b < next.len() implies (#[trigger] next[a]).0 != (
    #[trigger] next[b]).0 by {
        assert(next[a] == s[a]);
        if b == s.len() {
            if s[a].0 == k {
                assert(rows_map(s).dom().contains(k));
            }
        } else {
            assert(next[b] == s[b]);
        }
    }
}

/// Removing a row removes its key.
pub proof fn lemma_rows_remove<K, V>(s: Seq<(K, V)>, i: int)
    requires
        distinct_keys(s),
        0 <= i < s.len(),
    ensures
        distinct_keys(s.remove(i)),
        rows_map(s.remove(i)) == rows_map(s).remove(s[i].0),
{
    let next = s.remove(i);
    assert forall|a: int, b: int| 0 <= a < b < next.len() implies (#[trigger] next[a]).0 != (
    #[trigger] next[b]).0 by {
        let a0 = if a < i { a } else { a + 1 };
        let b0 = if b < i { b } else { b + 1 };
        assert(next[a] == s[a0] && next[b] == s[b0]);
    }
    lemma_rows_map(s);
    lemma_rows_map(next);
    let m = rows_map(s).remove(s[i].0);
    assert forall|k: K| rows_map(next).dom().contains(k) <==> m.dom().contains(k) by {
        if rows_map(next).dom().contains(k) {
            let a = choose|a: int| 0 <= a < next.len() && (#[trigger] next[a]).0 == k;
            let a0 = if a < i { a } else { a + 1 };
            assert(next[a] == s[a0]);
            assert(s[a0].0 == k);
            if a0 < i {
                assert(s[a0].0 != s[i].0);
            } else {
                assert(s[i].0 != s[a0].0);
            }
        }
        if m.dom().contains(k) {
            let a = choose|a: int| 0 <= a < s.len() && (#[trigger] s[a]).0 == k;
            let a1 = if a < i { a } else { a - 1 };
            assert(next[a1] == s[a]);
        }
    }
    assert forall|k: K| rows_map(next).dom().contains(k) implies rows_map(next)[k] == m[k] by {
        let a = choose|a: int| 0 <= a < next.len() && (#[trigger] next[a]).0 == k;
        let a0 = if a < i { a } else { a + 1 };
        assert(next[a] == s[a0]);
        assert(rows_map(next)[next[a].0] == next[a].1);
        assert(rows_map(s)[s[a0].0] == s[a0].1);
    }
    assert(rows_map(next) =~= m);
}

} // verus!
