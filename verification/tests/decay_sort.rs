use spectral_forge::dsp::modules::decay_sort::{plan_decay_sort, MAX_SORT_BINS};

#[test]
fn decay_sort_ranks_by_statistic_then_loudness() {
    let mag = vec![5u32, 1, 9, 3];
    let pass = vec![true, false, true, true];
    let stat = vec![2u32, 7, 2, 8];
    let plan = plan_decay_sort(&mag, &pass, &stat, 1);
    assert_eq!(plan.ranked, vec![3u32, 2, 0]);
    assert_eq!(plan.low_k, 1);
    assert_eq!(plan.max_dest, 4);
}

#[test]
fn decay_sort_floor_is_clamped_to_last_bin() {
    let mag = vec![4u32, 4, 4];
    let pass = vec![true, true, true];
    let stat = vec![1u32, 1, 1];
    let plan = plan_decay_sort(&mag, &pass, &stat, 99);
    // Equal statistic and loudness: their input order stays.
    assert_eq!(plan.ranked, vec![0u32, 1, 2]);
    assert_eq!(plan.low_k, 2);
    assert_eq!(plan.max_dest, 3);
}

#[test]
fn decay_sort_full_pool_keeps_the_loudest() {
    let n: u32 = 300;
    let mag: Vec<u32> = (0..n).collect();
    let pass = vec![true; n as usize];
    let stat = vec![0u32; n as usize];
    let plan = plan_decay_sort(&mag, &pass, &stat, 0);
    assert_eq!(plan.ranked.len(), MAX_SORT_BINS);
    assert_eq!(plan.ranked[0], 299);
    assert_eq!(plan.ranked[MAX_SORT_BINS - 1], 44);
    assert_eq!(plan.max_dest, MAX_SORT_BINS);
    let mut bins = plan.ranked.clone();
    bins.sort();
    bins.dedup();
    assert_eq!(bins.len(), MAX_SORT_BINS);
}

#[test]
fn decay_sort_empty_input() {
    let plan = plan_decay_sort(&[], &[], &[], 5);
    assert!(plan.ranked.is_empty());
    assert_eq!(plan.low_k, 0);
    assert_eq!(plan.max_dest, 0);
}
