//! Which cached files to give up: those too old, and the oldest until the rest
//! fits.

use vstd::prelude::*;

use crate::text::{contains_text, texts};

verus! {

/// The cached files of one item. The time is in nanoseconds.
#[derive(Debug)]
pub struct CacheEntry {
    pub name: String,
    pub modified_ns: u128,
    pub size: u64,
}

/// Entries in order of time with one more put in its place, after those of the
/// same time.
pub open spec fn put_by_time(s: Seq<CacheEntry>, e: CacheEntry) -> Seq<CacheEntry>
    decreases s.len(),
{
    if s.len() == 0 || s.last().modified_ns <= e.modified_ns {
        s.push(e)
    } else {
        put_by_time(s.drop_last(), e).push(s.last())
    }
}

/// The entries that are not pinned, in order of time.
pub open spec fn candidates(s: Seq<CacheEntry>, pinned: Seq<Seq<char>>) -> Seq<CacheEntry>
    decreases s.len(),
{
    if s.len() == 0 {
        Seq::empty()
    } else {
        let before = candidates(s.drop_last(), pinned);
        if pinned.contains(s.last().name@) {
            before
        } else {
            put_by_time(before, s.last())
        }
    }
}

/// The bytes of some entries together.
pub open spec fn total_size(s: Seq<CacheEntry>) -> nat
    decreases s.len(),
{
    if s.len() == 0 {
        0
    } else {
        total_size(s.drop_last()) + s.last().size as nat
    }
}

/// How long ago an entry was changed; a change in the future counts as now.
pub open spec fn age(e: CacheEntry, now_ns: u128) -> int {
    if now_ns >= e.modified_ns {
        now_ns - e.modified_ns
    } else {
        0
    }
}

/// Which of the first `n` entries in order go, from a total of `total` bytes.
spec fn goes(
    s: Seq<CacheEntry>,
    n: int,
    total: nat,
    now_ns: u128,
    ttl_ns: u128,
    max_bytes: u64,
) -> bool {
    age(s[n], now_ns) > ttl_ns || left_after(s, n, total, now_ns, ttl_ns, max_bytes) > max_bytes
}

/// The bytes left after the first `n` entries in order were looked at.
spec fn left_after(
    s: Seq<CacheEntry>,
    n: int,
    total: nat,
    now_ns: u128,
    ttl_ns: u128,
    max_bytes: u64,
) -> int
    decreases n,
{
    if n <= 0 {
        total as int
    } else {
        let before = left_after(s, n - 1, total, now_ns, ttl_ns, max_bytes);
        if age(s[n - 1], now_ns) > ttl_ns || before > max_bytes {
            before - s[n - 1].size
        } else {
            before
        }
    }
}

/// The names of those among the first `n` entries in order that go.
spec fn evicted_names(
    s: Seq<CacheEntry>,
    n: int,
    now_ns: u128,
    ttl_ns: u128,
    max_bytes: u64,
) -> Seq<Seq<char>>
    decreases n,
{
    if n <= 0 {
        Seq::empty()
    } else {
        let before = evicted_names(s, n - 1, now_ns, ttl_ns, max_bytes);
        if goes(s, n - 1, total_size(s), now_ns, ttl_ns, max_bytes) {
            before.push(s[n - 1].name@)
        } else {
            before
        }
    }
}

/// The names of some entries.
pub open spec fn names_of(s: Seq<CacheEntry>) -> Seq<Seq<char>> {
    s.map_values(|e: CacheEntry| e.name@)
}

/// Whether entries are in order of time, the oldest first.
pub open spec fn oldest_first(s: Seq<CacheEntry>) -> bool {
    forall|i: int, j: int|
        0 <= i < j < s.len() ==> (#[trigger] s[i]).modified_ns <= (#[trigger] s[j]).modified_ns
}

/// Whether the entries from place `k` on may stay: none is too old, and together
/// they fit.
pub open spec fn rest_may_stay(
    s: Seq<CacheEntry>,
    k: int,
    now_ns: u128,
    ttl_ns: u128,
    max_bytes: u64,
) -> bool {
    &&& forall|i: int| k <= i < s.len() ==> age(#[trigger] s[i], now_ns) <= ttl_ns
    &&& total_size(s) - total_size(s.take(k)) <= max_bytes
}

/// Whether `k` is the least number of entries, the oldest first, without which the
/// others may stay.
pub open spec fn is_shortest(
    s: Seq<CacheEntry>,
    k: int,
    now_ns: u128,
    ttl_ns: u128,
    max_bytes: u64,
) -> bool {
    &&& 0 <= k <= s.len()
    &&& rest_may_stay(s, k, now_ns, ttl_ns, max_bytes)
    &&& forall|j: int|
        0 <= j < k ==> !(#[trigger] rest_may_stay(s, j, now_ns, ttl_ns, max_bytes))
}

proof fn lemma_put_in_order(s: Seq<CacheEntry>, e: CacheEntry)
    requires
        oldest_first(s),
    ensures
        oldest_first(put_by_time(s, e)),
        put_by_time(s, e).to_multiset() == s.push(e).to_multiset(),
        forall|i: int|
            0 <= i < put_by_time(s, e).len() ==> (#[trigger] put_by_time(s, e)[i]).modified_ns
                == e.modified_ns || exists|j: int|
                0 <= j < s.len() && (#[trigger] s[j]).modified_ns == put_by_time(
                    s,
                    e,
                )[i].modified_ns,
    decreases s.len(),
{
    broadcast use vstd::seq_lib::group_to_multiset_ensures;

    let r = put_by_time(s, e);
    if s.len() == 0 || s.last().modified_ns <= e.modified_ns {
        assert forall|i: int, j: int| 0 <= i < j < r.len() implies (#[trigger] r[i]).modified_ns <= (
        #[trigger] r[j]).modified_ns by {
            if j == s.len() && i < s.len() - 1 {
                assert(s[i].modified_ns <= s[s.len() - 1].modified_ns);
            }
        }
        assert forall|i: int| 0 <= i < r.len() implies (#[trigger] r[i]).modified_ns
            == e.modified_ns || exists|j: int|
            0 <= j < s.len() && (#[trigger] s[j]).modified_ns == r[i].modified_ns by {
            if i < s.len() {
                assert(s[i].modified_ns == r[i].modified_ns);
            }
        }
    } else {
        let shorter = s.drop_last();
        let inner = put_by_time(shorter, e);
        assert(oldest_first(shorter)) by {
            assert forall|i: int, j: int| 0 <= i < j < shorter.len() implies (
            #[trigger] shorter[i]).modified_ns <= (#[trigger] shorter[j]).modified_ns by {
                assert(shorter[i] == s[i] && shorter[j] == s[j]);
            }
        }
        lemma_put_in_order(shorter, e);
        let last = s.len() - 1;
        assert forall|i: int| 0 <= i < inner.len() implies (#[trigger] inner[i]).modified_ns
            <= s.last().modified_ns by {
            if inner[i].modified_ns != e.modified_ns {
                let j = choose|j: int|
                    0 <= j < shorter.len() && (#[trigger] shorter[j]).modified_ns
                        == inner[i].modified_ns;
                assert(s[j].modified_ns <= s[last].modified_ns);
            }
        }
        assert forall|i: int, j: int| 0 <= i < j < r.len() implies (#[trigger] r[i]).modified_ns <= (
        #[trigger] r[j]).modified_ns by {
            assert(r[i] == inner[i]);
            if j < inner.len() {
                assert(r[j] == inner[j]);
            }
        }
        assert forall|i: int| 0 <= i < r.len() implies (#[trigger] r[i]).modified_ns
            == e.modified_ns || exists|j: int|
            0 <= j < s.len() && (#[trigger] s[j]).modified_ns == r[i].modified_ns by {
            if i < inner.len() {
                assert(r[i] == inner[i]);
                if inner[i].modified_ns != e.modified_ns {
                    let j = choose|j: int|
                        0 <= j < shorter.len() && (#[trigger] shorter[j]).modified_ns
                            == inner[i].modified_ns;
                    assert(s[j].modified_ns == r[i].modified_ns);
                }
            } else {
                assert(s[last].modified_ns == r[i].modified_ns);
            }
        }
        assert(s =~= shorter.push(s.last()));
        assert(r.to_multiset() =~= s.push(e).to_multiset());
    }
}

/// The entries that can go are in order of time, the oldest first.
pub proof fn candidates_are_oldest_first(s: Seq<CacheEntry>, pinned: Seq<Seq<char>>)
    ensures
        oldest_first(candidates(s, pinned)),
    decreases s.len(),
{
    if s.len() > 0 {
        candidates_are_oldest_first(s.drop_last(), pinned);
        lemma_put_in_order(candidates(s.drop_last(), pinned), s.last());
    }
}

/// The entries that can go are those that are not pinned, each as often as it is
/// there.
pub proof fn candidates_are_the_unpinned(s: Seq<CacheEntry>, pinned: Seq<Seq<char>>)
    ensures
        candidates(s, pinned).to_multiset() == s.filter(
            |e: CacheEntry| !pinned.contains(e.name@),
        ).to_multiset(),
    decreases s.len(),
{
    broadcast use vstd::seq_lib::group_to_multiset_ensures;

    reveal(Seq::filter);
    if s.len() > 0 {
        let before = candidates(s.drop_last(), pinned);
        candidates_are_the_unpinned(s.drop_last(), pinned);
        candidates_are_oldest_first(s.drop_last(), pinned);
        lemma_put_in_order(before, s.last());
    }
}

proof fn lemma_shortest_exists(
    s: Seq<CacheEntry>,
    n: int,
    now_ns: u128,
    ttl_ns: u128,
    max_bytes: u64,
) -> (k: int)
    requires
        0 <= n <= s.len(),
        forall|j: int| 0 <= j < n ==> !(#[trigger] rest_may_stay(s, j, now_ns, ttl_ns, max_bytes)),
    ensures
        is_shortest(s, k, now_ns, ttl_ns, max_bytes),
    decreases s.len() - n,
{
    if rest_may_stay(s, n, now_ns, ttl_ns, max_bytes) {
        n
    } else {
        if n == s.len() {
            assert(s.take(n) =~= s);
        }
        lemma_shortest_exists(s, n + 1, now_ns, ttl_ns, max_bytes)
    }
}

proof fn lemma_evicts_prefix(
    s: Seq<CacheEntry>,
    n: int,
    k: int,
    now_ns: u128,
    ttl_ns: u128,
    max_bytes: u64,
)
    requires
        oldest_first(s),
        0 <= n <= s.len(),
        is_shortest(s, k, now_ns, ttl_ns, max_bytes),
    ensures
        ({
            let m = if n <= k {
                n
            } else {
                k
            };
            &&& left_after(s, n, total_size(s), now_ns, ttl_ns, max_bytes) == total_size(s)
                - total_size(s.take(m))
            &&& evicted_names(s, n, now_ns, ttl_ns, max_bytes) == names_of(s.take(m))
        }),
    decreases n,
{
    if n == 0 {
        assert(s.take(0).len() == 0);
        assert(names_of(s.take(0)) =~= Seq::<Seq<char>>::empty());
    } else {
        let i = n - 1;
        lemma_evicts_prefix(s, i, k, now_ns, ttl_ns, max_bytes);
        if i < k {
            assert(!rest_may_stay(s, i, now_ns, ttl_ns, max_bytes));
            if total_size(s) - total_size(s.take(i)) <= max_bytes {
                let j = choose|j: int|
                    i <= j < s.len() && !(age(#[trigger] s[j], now_ns) <= ttl_ns);
                if i < j {
                    assert(s[i].modified_ns <= s[j].modified_ns);
                }
                assert(age(s[i], now_ns) > ttl_ns);
            }
            assert(s.take(n).drop_last() =~= s.take(i));
            assert(s.take(n).last() == s[i]);
            assert(names_of(s.take(n)) =~= names_of(s.take(i)).push(s[i].name@));
        } else {
            assert(age(s[i], now_ns) <= ttl_ns);
        }
    }
}

/// What to remove from the cache.
#[derive(Debug)]
pub struct Eviction {
    pub names: Vec<String>,
    pub freed: u64,
}

fn place(sorted: &mut Vec<CacheEntry>, e: CacheEntry)
    ensures
        final(sorted)@ == put_by_time(old(sorted)@, e),
{
    let ghost all = sorted@;
    let mut p: usize = sorted.len();
    proof {
        assert(all.take(p as int) =~= all);
        assert(all.skip(p as int) =~= Seq::<CacheEntry>::empty());
        assert(put_by_time(all, e) =~= put_by_time(all.take(p as int), e) + all.skip(p as int));
    }
    while p > 0 && sorted[p - 1].modified_ns > e.modified_ns
        invariant
            p <= all.len(),
            sorted@ == all,
            put_by_time(all, e) == put_by_time(all.take(p as int), e) + all.skip(p as int),
        decreases p,
    {
        proof {
            assert(all.take(p as int).drop_last() =~= all.take(p - 1));
            assert(all.take(p as int).last() == all[p - 1]);
            assert(put_by_time(all.take(p - 1), e).push(all[p - 1]) + all.skip(p as int)
                =~= put_by_time(all.take(p - 1), e) + all.skip(p - 1));
        }
        p -= 1;
    }
    proof {
        if p > 0 {
            assert(all.take(p as int).last() == all[p - 1]);
        }
        assert(put_by_time(all.take(p as int), e) == all.take(p as int).push(e));
        assert(all.insert(p as int, e) =~= all.take(p as int).push(e) + all.skip(p as int));
    }
    sorted.insert(p, e);
}

/// Plans what to remove from the cache: of the entries that are not pinned the
/// fewest, the oldest first, without which none was left unchanged for longer than
/// `ttl_ns` and the rest has no more than `max_bytes`.
pub fn evict_item_cache(
    entries: Vec<CacheEntry>,
    now_ns: u128,
    ttl_ns: u128,
    max_bytes: u64,
    pinned: &[String],
) -> (r: Eviction)
    requires
        total_size(candidates(entries@, texts(pinned@))) <= u64::MAX,
    ensures
        ({
            let s = candidates(entries@, texts(pinned@));
            exists|k: int|
                {
                    &&& #[trigger] is_shortest(s, k, now_ns, ttl_ns, max_bytes)
                    &&& texts(r.names@) == names_of(s.take(k))
                    &&& r.freed == total_size(s.take(k))
                }
        }),
{
    let ghost all = entries@;
    let ghost pins = texts(pinned@);
    let mut rest = entries;
    let mut reversed: Vec<CacheEntry> = Vec::new();
    while rest.len() > 0
        invariant
            all == rest@ + reversed@.reverse(),
        decreases rest@.len(),
    {
        let ghost before = rest@;
        let ghost done = reversed@;
        match rest.pop() {
            Some(e) => {
                reversed.push(e);
                assert(reversed@.reverse() =~= seq![e] + done.reverse());
                assert(before =~= rest@.push(e));
                assert(all =~= rest@ + reversed@.reverse());
            },
            None => {},
        }
    }
    assert(all =~= reversed@.reverse());
    let ghost n0 = all.len();
    let mut sorted: Vec<CacheEntry> = Vec::new();
    assert(all.take(0).len() == 0);
    while reversed.len() > 0
        invariant
            pins == texts(pinned@),
            reversed@.len() <= all.len(),
            reversed@.reverse() == all.skip(all.len() - reversed@.len()),
            sorted@ == candidates(all.take(all.len() - reversed@.len()), pins),
        decreases reversed@.len(),
    {
        let ghost k = all.len() - reversed@.len();
        let ghost before = reversed@;
        match reversed.pop() {
            Some(e) => {
                proof {
                    assert(before.reverse()[0] == e);
                    assert(all.skip(k)[0] == all[k]);
                    assert(all[k] == e);
                    assert(all.take(k + 1).drop_last() =~= all.take(k));
                    assert(all.take(k + 1).last() == e);
                    assert(reversed@.reverse() =~= before.reverse().skip(1));
                    assert(all.skip(k).skip(1) =~= all.skip(k + 1));
                }
                if !contains_text(pinned, e.name.as_str()) {
                    place(&mut sorted, e);
                }
            },
            None => {},
        }
    }
    assert(all.take(all.len() as int) =~= all);
    let ghost s = sorted@;
    let mut total: u64 = 0;
    let mut i: usize = 0;
    assert(s.take(0).len() == 0);
    while i < sorted.len()
        invariant
            i <= s.len(),
            sorted@ == s,
            total_size(s) <= u64::MAX,
            total == total_size(s.take(i as int)),
        decreases s.len() - i,
    {
        proof {
            assert(s.take(i + 1).drop_last() =~= s.take(i as int));
            assert(s.take(i + 1).last() == s[i as int]);
            lemma_total_grows(s, i + 1);
        }
        total = total + sorted[i].size;
        i += 1;
    }
    assert(s.take(i as int) =~= s);
    let mut left: u64 = total;
    let mut freed: u64 = 0;
    let mut names: Vec<String> = Vec::new();
    let mut k: usize = 0;
    assert(texts(names@) =~= Seq::<Seq<char>>::empty());
    while k < sorted.len()
        invariant
            k <= s.len(),
            sorted@ == s,
            total == total_size(s),
            left == left_after(s, k as int, total as nat, now_ns, ttl_ns, max_bytes),
            freed == total - left,
            left <= total,
            left >= total_size(s) - total_size(s.take(k as int)),
            texts(names@) == evicted_names(s, k as int, now_ns, ttl_ns, max_bytes),
        decreases s.len() - k,
    {
        let e = &sorted[k];
        let age_ns: u128 = if now_ns >= e.modified_ns {
            now_ns - e.modified_ns
        } else {
            0
        };
        proof {
            assert(s.take(k + 1).drop_last() =~= s.take(k as int));
            assert(s.take(k + 1).last() == s[k as int]);
            lemma_total_grows(s, k + 1);
        }
        if age_ns > ttl_ns || left > max_bytes {
            let ghost before = texts(names@);
            let name = e.name.clone();
            names.push(name);
            assert(texts(names@) =~= before.push(e.name@));
            freed = freed + e.size;
            left = left - e.size;
        }
        k += 1;
    }
    proof {
        candidates_are_oldest_first(all, pins);
        let least = lemma_shortest_exists(s, 0, now_ns, ttl_ns, max_bytes);
        lemma_evicts_prefix(s, s.len() as int, least, now_ns, ttl_ns, max_bytes);
    }
    Eviction { names, freed }
}

proof fn lemma_total_grows(s: Seq<CacheEntry>, k: int)
    requires
        0 <= k <= s.len(),
    ensures
        total_size(s.take(k)) <= total_size(s),
    decreases s.len() - k,
{
    if k < s.len() {
        assert(s.take(k + 1).drop_last() =~= s.take(k));
        lemma_total_grows(s, k + 1);
    } else {
        assert(s.take(k) =~= s);
    }
}

/// The bytes of entries together are those of each.
pub proof fn sizes_add_up(s: Seq<CacheEntry>, e: CacheEntry)
    ensures
        total_size(s.push(e)) == total_size(s) + e.size,
        total_size(Seq::<CacheEntry>::empty()) == 0,
{
    assert(s.push(e).drop_last() =~= s);
}

/// What goes is as little as possible and enough: of what stays nothing was left
/// unchanged for longer than the limit, and it has no more bytes than allowed. If
/// anything goes, then with the last of it something would be too old, or there would
/// be too many bytes.
pub proof fn eviction_is_enough_and_least(
    s: Seq<CacheEntry>,
    k: int,
    now_ns: u128,
    ttl_ns: u128,
    max_bytes: u64,
)
    requires
        is_shortest(s, k, now_ns, ttl_ns, max_bytes),
    ensures
        0 <= k <= s.len(),
        forall|i: int|
            k <= i < s.len() ==> now_ns <= (#[trigger] s[i]).modified_ns || now_ns
                - s[i].modified_ns <= ttl_ns,
        total_size(s) - total_size(s.take(k)) <= max_bytes,
        k > 0 ==> total_size(s) - total_size(s.take(k - 1)) > max_bytes || exists|i: int|
            k - 1 <= i < s.len() && now_ns > (#[trigger] s[i]).modified_ns && now_ns
                - s[i].modified_ns > ttl_ns,
{
    assert forall|i: int| k <= i < s.len() implies now_ns <= (#[trigger] s[i]).modified_ns || now_ns
        - s[i].modified_ns <= ttl_ns by {
        assert(age(s[i], now_ns) <= ttl_ns);
    }
    if k > 0 {
        assert(!rest_may_stay(s, k - 1, now_ns, ttl_ns, max_bytes));
        if total_size(s) - total_size(s.take(k - 1)) <= max_bytes {
            let i = choose|i: int|
                k - 1 <= i < s.len() && !(age(#[trigger] s[i], now_ns) <= ttl_ns);
            assert(now_ns > s[i].modified_ns);
        }
    }
}

/// If nothing is too old and everything fits, nothing goes.
pub proof fn nothing_goes_without_need(
    s: Seq<CacheEntry>,
    k: int,
    now_ns: u128,
    ttl_ns: u128,
    max_bytes: u64,
)
    requires
        is_shortest(s, k, now_ns, ttl_ns, max_bytes),
        total_size(s) <= max_bytes,
        forall|i: int|
            0 <= i < s.len() ==> now_ns <= (#[trigger] s[i]).modified_ns || now_ns
                - s[i].modified_ns <= ttl_ns,
    ensures
        k == 0,
{
    if k > 0 {
        assert(!rest_may_stay(s, 0, now_ns, ttl_ns, max_bytes));
    }
}


/// What goes, `r`, is never pinned and frees what its entries take; what stays fits, unless
/// it is pinned, and nothing of it was unchanged for too long. Nothing goes if nothing is
/// too old and everything fits.
pub proof fn the_cache_is_kept_within_limits(
    entries: Vec<CacheEntry>,
    now_ns: u128,
    ttl_ns: u128,
    max_bytes: u64,
    pinned: &[String],
    r: Eviction,
) -> (k: int)
    requires
        total_size(candidates(entries@, texts(pinned@))) <= u64::MAX,
        call_ensures(evict_item_cache, (entries, now_ns, ttl_ns, max_bytes, pinned), r),
    ensures
        ({
            let s = candidates(entries@, texts(pinned@));
            &&& 0 <= k <= s.len()
            &&& r.names@.len() == k
            &&& forall|i: int| 0 <= i < k ==> (#[trigger] r.names@[i])@ == s[i].name@
            &&& r.freed == total_size(s.take(k))
            &&& total_size(s) - r.freed <= max_bytes
            &&& forall|i: int|
                k <= i < s.len() ==> now_ns <= (#[trigger] s[i]).modified_ns || now_ns
                    - s[i].modified_ns <= ttl_ns
            &&& total_size(s) <= max_bytes && (forall|i: int|
                0 <= i < s.len() ==> now_ns <= (#[trigger] s[i]).modified_ns || now_ns
                    - s[i].modified_ns <= ttl_ns) ==> k == 0
        }),
{
    let s = candidates(entries@, texts(pinned@));
    let k = choose|k: int|
        {
            &&& #[trigger] is_shortest(s, k, now_ns, ttl_ns, max_bytes)
            &&& texts(r.names@) == names_of(s.take(k))
            &&& r.freed == total_size(s.take(k))
        };
    eviction_is_enough_and_least(s, k, now_ns, ttl_ns, max_bytes);
    assert(texts(r.names@).len() == r.names@.len());
    assert forall|i: int| 0 <= i < k implies (#[trigger] r.names@[i])@ == s[i].name@ by {
        assert(texts(r.names@)[i] == r.names@[i]@);
        assert(names_of(s.take(k))[i] == s[i].name@);
    }
    if total_size(s) <= max_bytes && (forall|i: int|
        0 <= i < s.len() ==> now_ns <= (#[trigger] s[i]).modified_ns || now_ns - s[i].modified_ns
            <= ttl_ns) {
        nothing_goes_without_need(s, k, now_ns, ttl_ns, max_bytes);
    }
    k
}


} // verus!
