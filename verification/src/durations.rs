//! The size cap of the per-file duration cache: which entries go when the
//! cache holds more than it may, preferring entries for videos that are no
//! longer listed.
use vstd::prelude::*;

verus! {

/// The cache keeps at most this many entries.
pub const MAX_ENTRIES: usize = 500;

/// How many of the first `n` flags equal `v`.
pub open spec fn count_of(s: Seq<bool>, v: bool, n: int) -> nat
    decreases n,
{
    if n <= 0 {
        0
    } else {
        count_of(s, v, n - 1) + if s[n - 1] == v { 1nat } else { 0nat }
    }
}

/// How many entries must go so that at most `max` of `n` remain.
pub open spec fn excess(n: int, max: int) -> int {
    if n > max { n - max } else { 0 }
}

/// Entry `i` (in the map's walk order) is evicted: entries not in the keep
/// set go first, in walk order; kept ones only when evicting all the others
/// is not enough, again in walk order.
pub open spec fn is_evicted(kept: Seq<bool>, max: int, i: int) -> bool {
    let e = excess(kept.len() as int, max);
    let others = count_of(kept, false, kept.len() as int) as int;
    if !kept[i] {
        count_of(kept, false, i) < e
    } else {
        count_of(kept, true, i) < e - if others < e { others } else { e }
    }
}

proof fn lemma_count_bounds(s: Seq<bool>, v: bool, n: int)
    requires
        0 <= n <= s.len(),
    ensures
        count_of(s, v, n) <= n,
        count_of(s, true, n) + count_of(s, false, n) == n,
    decreases n,
{
    if n > 0 {
        lemma_count_bounds(s, v, n - 1);
    }
}

/// Which of the cache's entries to evict, given for each entry (in the map's
/// walk order) whether it belongs to the videos just listed: the flags mark
/// the entries to remove so that at most `max` remain.
pub fn entries_to_evict(kept: &Vec<bool>, max: usize) -> (r: Vec<bool>)
    ensures
        r@.len() == kept@.len(),
        forall|i: int| 0 <= i < kept@.len() ==> r@[i] == is_evicted(kept@, max as int, i),
{
    let n = kept.len();
    let e: usize = if n > max { n - max } else { 0 };
    let mut others: usize = 0;
    let mut i: usize = 0;
    while i < n
        invariant
            i <= n == kept@.len(),
            others == count_of(kept@, false, i as int),
        decreases n - i,
    {
        proof {
            lemma_count_bounds(kept@, false, i as int);
        }
        if !kept[i] {
            others = others + 1;
        }
        i = i + 1;
    }
    let from_kept: usize = e - if others < e { others } else { e };
    let mut r: Vec<bool> = Vec::new();
    let mut seen_others: usize = 0;
    let mut seen_kept: usize = 0;
    let mut j: usize = 0;
    while j < n
        invariant
            j <= n == kept@.len(),
            e == excess(n as int, max as int),
            others == count_of(kept@, false, n as int),
            from_kept == e - if others < e { others } else { e },
            seen_others == count_of(kept@, false, j as int),
            seen_kept == count_of(kept@, true, j as int),
            r@.len() == j,
            forall|k: int| 0 <= k < j ==> r@[k] == is_evicted(kept@, max as int, k),
        decreases n - j,
    {
        proof {
            lemma_count_bounds(kept@, false, j as int);
        }
        if !kept[j] {
            r.push(seen_others < e);
            seen_others = seen_others + 1;
        } else {
            r.push(seen_kept < from_kept);
            seen_kept = seen_kept + 1;
        }
        j = j + 1;
    }
    r
}

proof fn lemma_evicted_count(kept: Seq<bool>, max: int, n: int)
    requires
        0 <= n <= kept.len(),
    ensures
        count_of(Seq::new(kept.len(), |i: int| is_evicted(kept, max, i)), true, n) == (if count_of(
            kept,
            false,
            n,
        ) < excess(kept.len() as int, max) {
            count_of(kept, false, n) as int
        } else {
            excess(kept.len() as int, max)
        }) + {
            let e = excess(kept.len() as int, max);
            let others = count_of(kept, false, kept.len() as int) as int;
            let from_kept = e - if others < e { others } else { e };
            if count_of(kept, true, n) < from_kept {
                count_of(kept, true, n) as int
            } else {
                from_kept
            }
        },
    decreases n,
{
    if n > 0 {
        lemma_evicted_count(kept, max, n - 1);
    }
}

/// The evictions leave exactly `min(n, max)` of the `n` entries, and when
/// there are enough entries outside the keep set, every kept entry stays.
pub proof fn lemma_eviction_leaves_max(kept: Seq<bool>, max: int)
    requires
        max >= 0,
    ensures
        count_of(Seq::new(kept.len(), |i: int| is_evicted(kept, max, i)), true, kept.len() as int)
            == excess(kept.len() as int, max),
        count_of(kept, false, kept.len() as int) >= excess(kept.len() as int, max) ==> forall|i: int|
            0 <= i < kept.len() && #[trigger] kept[i] ==> !is_evicted(kept, max, i),
{
    let n = kept.len() as int;
    lemma_evicted_count(kept, max, n);
    lemma_count_bounds(kept, true, n);
}

} // verus!
