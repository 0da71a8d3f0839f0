//! Luminance histograms: how many samples fall into each of the 256 buckets.
use std::collections::HashMap;
use vstd::prelude::*;

verus! {

broadcast use vstd::std_specs::hash::group_hash_axioms;

/// Number of entries of `s` equal to `b`.
pub open spec fn occurrences(s: Seq<u8>, b: u8) -> nat
    decreases s.len(),
{
    if s.len() == 0 {
        0
    } else {
        occurrences(s.drop_last(), b) + if s.last() == b {
            1nat
        } else {
            0nat
        }
    }
}

/// A prefix holds no more occurrences than the whole sequence.
pub proof fn lemma_occurrences_prefix(s: Seq<u8>, n: int, b: u8)
    requires
        0 <= n <= s.len(),
    ensures
        occurrences(s.take(n), b) <= occurrences(s, b),
    decreases s.len() - n,
{
    if n < s.len() {
        lemma_occurrences_prefix(s, n + 1, b);
        assert(s.take(n + 1).drop_last() =~= s.take(n));
    } else {
        assert(s.take(n) =~= s);
    }
}

/// The histogram of `buckets`: each bucket that occurs maps to the number of
/// its occurrences; buckets that do not occur are absent.
pub open spec fn is_histogram_of(histogram: Map<u8, u32>, buckets: Seq<u8>) -> bool {
    &&& forall|b: u8| #[trigger] histogram.contains_key(b) <==> occurrences(buckets, b) > 0
    &&& forall|b: u8|
        #![trigger histogram.contains_key(b)]
        #![trigger histogram[b]]
        histogram.contains_key(b) ==> histogram[b] == occurrences(buckets, b)
}

/// Counts how many times each bucket occurs.
pub fn count_buckets(buckets: &[u8]) -> (histogram: HashMap<u8, u32>)
    requires
        forall|b: u8| occurrences(buckets@, b) <= u32::MAX,
    ensures
        is_histogram_of(histogram@, buckets@),
{
    let mut histogram: HashMap<u8, u32> = HashMap::new();
    let n = buckets.len();
    for i in 0..n
        invariant
            n == buckets@.len(),
            forall|b: u8| occurrences(buckets@, b) <= u32::MAX,
            is_histogram_of(histogram@, buckets@.take(i as int)),
    {
        let bucket = buckets[i];
        let ghost seen = buckets@.take(i as int);
        let ghost next = buckets@.take(i + 1);
        proof {
            assert(next.drop_last() =~= seen);
            lemma_occurrences_prefix(buckets@, i + 1, bucket);
        }
        let count = match histogram.get(&bucket) {
            Some(c) => *c,
            None => 0,
        };
        histogram.insert(bucket, count + 1);
        proof {
            assert forall|b: u8| #[trigger] histogram@.contains_key(b) <==> occurrences(next, b) > 0 by {
                assert(occurrences(next, b) == occurrences(seen, b) + if next.last() == b {
                    1nat
                } else {
                    0nat
                });
            }
            assert forall|b: u8| #[trigger] histogram@.contains_key(b) implies histogram@[b]
                == occurrences(next, b) by {
                assert(occurrences(next, b) == occurrences(seen, b) + if next.last() == b {
                    1nat
                } else {
                    0nat
                });
            }
        }
    }
    proof {
        assert(buckets@.take(n as int) =~= buckets@);
    }
    histogram
}

/// Occurrences of the buckets below `n`, added up.
pub open spec fn occurrences_below(s: Seq<u8>, n: nat) -> nat
    decreases n,
{
    if n == 0 {
        0
    } else {
        occurrences_below(s, (n - 1) as nat) + occurrences(s, (n - 1) as u8)
    }
}

proof fn lemma_occurrences_below_push(s: Seq<u8>, v: u8, n: nat)
    requires
        n <= 256,
    ensures
        occurrences_below(s.push(v), n) == occurrences_below(s, n) + if (v as nat) < n {
            1nat
        } else {
            0nat
        },
    decreases n,
{
    if n > 0 {
        lemma_occurrences_below_push(s, v, (n - 1) as nat);
        assert(s.push(v).drop_last() =~= s);
    }
}

/// Every sample falls into exactly one bucket: the counts of all 256 buckets
/// add up to the number of samples.
pub proof fn law_bucket_counts_add_up(buckets: Seq<u8>)
    ensures
        occurrences_below(buckets, 256) == buckets.len(),
    decreases buckets.len(),
{
    if buckets.len() == 0 {
        lemma_empty_counts(256);
        assert(buckets =~= Seq::<u8>::empty());
    } else {
        let rest = buckets.drop_last();
        law_bucket_counts_add_up(rest);
        lemma_occurrences_below_push(rest, buckets.last(), 256);
        assert(rest.push(buckets.last()) =~= buckets);
    }
}

proof fn lemma_empty_counts(n: nat)
    ensures
        occurrences_below(Seq::<u8>::empty(), n) == 0,
    decreases n,
{
    if n > 0 {
        lemma_empty_counts((n - 1) as nat);
    }
}

/// `entries` lists the entries of `m`: each exactly once.
pub open spec fn lists_entries<V>(entries: Seq<(u8, V)>, m: Map<u8, V>) -> bool {
    &&& forall|i: int|
        0 <= i < entries.len() ==> #[trigger] m.contains_key(entries[i].0) && m[entries[i].0]
            == entries[i].1
    &&& forall|i: int, j: int| 0 <= i < j < entries.len() ==> entries[i].0 != entries[j].0
    &&& forall|k: u8| #[trigger] m.contains_key(k) ==> exists|i: int| 0 <= i < entries.len() && entries[i].0 == k
}

/// The entries of a histogram in increasing bucket order.
pub fn entries_by_bucket<V: Copy>(histogram: &HashMap<u8, V>) -> (entries: Vec<(u8, V)>)
    ensures
        lists_entries(entries@, histogram@),
        forall|i: int, j: int| 0 <= i < j < entries.len() ==> entries[i].0 < entries[j].0,
{
    let mut entries: Vec<(u8, V)> = Vec::new();
    for b in 0..256u32
        invariant
            forall|i: int|
                0 <= i < entries.len() ==> #[trigger] histogram@.contains_key(entries[i].0)
                    && histogram@[entries[i].0] == entries[i].1,
            forall|i: int| 0 <= i < entries.len() ==> (#[trigger] entries[i]).0 < b,
            forall|i: int, j: int| 0 <= i < j < entries.len() ==> entries[i].0 < entries[j].0,
            forall|k: u8|
                #[trigger] histogram@.contains_key(k) && k < b ==> exists|i: int|
                    0 <= i < entries.len() && entries[i].0 == k,
    {
        let key = b as u8;
        let ghost before = entries@;
        match histogram.get(&key) {
            Some(v) => {
                assert(histogram@.contains_key(key) && histogram@[key] == *v);
                entries.push((key, *v));
                proof {
                    assert forall|i: int| 0 <= i < entries.len() implies #[trigger] histogram@.contains_key(
                        entries[i].0,
                    ) && histogram@[entries[i].0] == entries[i].1 by {
                        if i < before.len() {
                            assert(entries[i] == before[i]);
                        }
                    }
                    assert forall|k: u8| #[trigger]
                        histogram@.contains_key(k) && k < b + 1 implies exists|i: int|
                        0 <= i < entries.len() && entries[i].0 == k by {
                        if k == key {
                            assert(entries[entries.len() - 1].0 == k);
                        } else {
                            let i = choose|i: int| 0 <= i < before.len() && before[i].0 == k;
                            assert(entries[i] == before[i]);
                        }
                    }
                }
            },
            None => {
                assert(!histogram@.contains_key(key));
            },
        }
    }
    entries
}

/// The entries of a histogram ordered by increasing count.
pub fn entries_by_count(histogram: &HashMap<u8, u32>) -> (entries: Vec<(u8, u32)>)
    ensures
        lists_entries(entries@, histogram@),
        forall|i: int, j: int| 0 <= i < j < entries.len() ==> entries[i].1 <= entries[j].1,
{
    let mut entries = entries_by_bucket(histogram);
    let ghost m = histogram@;
    let n = entries.len();
    let mut i: usize = 1;
    while i < n
        invariant
            n == entries.len(),
            1 <= i,
            lists_entries(entries@, m),
            forall|a: int, b: int| 0 <= a < b < i && b < n ==> entries[a].1 <= entries[b].1,
        decreases n - i,
    {
        let mut j = i;
        while j > 0 && entries[j - 1].1 > entries[j].1
            invariant
                n == entries.len(),
                i < n,
                j <= i,
                lists_entries(entries@, m),
                forall|a: int, b: int|
                    0 <= a < b <= i && a != j && b != j ==> entries[a].1 <= entries[b].1,
                forall|b: int| j < b <= i ==> entries[j as int].1 <= entries[b].1,
            decreases j,
        {
            let ghost before = entries@;
            let moving = entries[j];
            let other = entries[j - 1];
            entries.set(j, other);
            entries.set(j - 1, moving);
            proof {
                lemma_swap_lists_entries(before, entries@, m, (j - 1) as int, j as int);
            }
            j = j - 1;
        }
        i = i + 1;
    }
    entries
}

proof fn lemma_swap_lists_entries<V>(before: Seq<(u8, V)>, after: Seq<(u8, V)>, m: Map<u8, V>, a: int, b: int)
    requires
        lists_entries(before, m),
        0 <= a < b < before.len(),
        after == before.update(b, before[a]).update(a, before[b]),
    ensures
        lists_entries(after, m),
{
    assert forall|i: int| 0 <= i < after.len() implies #[trigger] m.contains_key(after[i].0) && m[after[i].0]
        == after[i].1 by {
        let p = if i == a {
            b
        } else if i == b {
            a
        } else {
            i
        };
        assert(after[i] == before[p]);
        assert(m.contains_key(before[p].0));
    }
    assert forall|i: int, j: int| 0 <= i < j < after.len() implies after[i].0 != after[j].0 by {
        let pi = if i == a {
            b
        } else if i == b {
            a
        } else {
            i
        };
        let pj = if j == a {
            b
        } else if j == b {
            a
        } else {
            j
        };
        assert(after[i] == before[pi]);
        assert(after[j] == before[pj]);
        if pi < pj {
            assert(before[pi].0 != before[pj].0);
        } else {
            assert(before[pj].0 != before[pi].0);
        }
    }
    assert forall|k: u8| #[trigger] m.contains_key(k) implies exists|i: int|
        0 <= i < after.len() && after[i].0 == k by {
        let i = choose|i: int| 0 <= i < before.len() && before[i].0 == k;
        if i == a {
            assert(after[b].0 == k);
        } else if i == b {
            assert(after[a].0 == k);
        } else {
            assert(after[i].0 == k);
        }
    }
}

/// The count of bucket `b` is the number of entries equal to `b`: the length
/// of the subsequence of those entries.
pub proof fn law_occurrences_count_equal_entries(s: Seq<u8>, b: u8)
    ensures
        occurrences(s, b) == s.filter(|x: u8| x == b).len(),
    decreases s.len(),
{
    reveal_with_fuel(Seq::filter, 1);
    if s.len() > 0 {
        law_occurrences_count_equal_entries(s.drop_last(), b);
    } else {
        assert(s.filter(|x: u8| x == b) =~= Seq::<u8>::empty());
    }
}

} // verus!
