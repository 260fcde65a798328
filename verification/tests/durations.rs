use tamp_lib::durations::{entries_to_evict, MAX_ENTRIES};

fn evicted(flags: &[bool]) -> usize {
    flags.iter().filter(|f| **f).count()
}

#[test]
fn eviction_is_a_noop_below_the_limit() {
    let flags = entries_to_evict(&vec![false, false], 2);
    assert_eq!(flags, vec![false, false]);
}

#[test]
fn eviction_prefers_entries_outside_the_current_set() {
    // keep1, keep2, old1, old2 in walk order.
    let flags = entries_to_evict(&vec![true, true, false, false], 2);
    assert_eq!(flags, vec![false, false, true, true]);
}

#[test]
fn eviction_takes_kept_entries_when_the_others_are_not_enough() {
    let flags = entries_to_evict(&vec![true, true, true, true], 3);
    assert_eq!(evicted(&flags), 1);
    assert_eq!(flags, vec![true, false, false, false]);
    let flags = entries_to_evict(&vec![true, false, true, true], 1);
    assert_eq!(flags, vec![true, true, true, false]);
}

#[test]
fn eviction_caps_at_max_entries() {
    let kept = vec![false; MAX_ENTRIES + 7];
    let flags = entries_to_evict(&kept, MAX_ENTRIES);
    assert_eq!(flags.len() - evicted(&flags), MAX_ENTRIES);
    assert!(flags[..7].iter().all(|f| *f));
}
