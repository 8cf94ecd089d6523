use dupes::groups::SymInfo;
use dupes::keys::CanonKey;
use dupes::sorting::{sorted_duplicates, SortKey};
use dupes::summary::compute_summary;

fn group(tag: u8, count: u64, size: u64) -> SymInfo {
    SymInfo {
        key: CanonKey::Code { bytes: vec![tag] },
        count,
        names: Vec::new(),
        function_size: size,
    }
}

#[test]
fn excess_bytes_formula() {
    assert_eq!(group(0, 3, 10).excess_bytes(), 20);
    assert_eq!(group(0, 2, 16).excess_bytes(), 16);
    assert_eq!(group(0, 1, 1000).excess_bytes(), 0);
}

#[test]
fn excess_bytes_saturates_at_the_counter_ceiling() {
    assert_eq!(group(0, 3, u64::MAX).excess_bytes(), u64::MAX);
}

#[test]
fn summary_totals_sum_over_all_groups() {
    let groups = vec![group(0, 3, 10), group(1, 1, 5), group(2, 2, 7)];
    let summary = compute_summary(&groups, 100);
    assert_eq!(summary.text_size, 100);
    assert_eq!(summary.excess_bytes, 27);
    assert_eq!(summary.duplicated_functions, 2);
    assert_eq!(summary.excess_instances, 3);
}

#[test]
fn sort_by_excess_bytes_is_non_decreasing() {
    let groups = vec![group(0, 3, 10), group(1, 1, 5), group(2, 2, 7), group(3, 5, 1)];
    let sorted = sorted_duplicates(groups, SortKey::ExcessBytes);
    let excess: Vec<u64> = sorted.iter().map(|g| g.excess_bytes()).collect();
    assert_eq!(excess, vec![4, 7, 20]);
    for w in excess.windows(2) {
        assert!(w[0] <= w[1]);
    }
}

#[test]
fn sort_by_copies_is_non_decreasing() {
    let groups = vec![group(0, 3, 10), group(1, 1, 5), group(2, 2, 7), group(3, 5, 1)];
    let sorted = sorted_duplicates(groups, SortKey::Copies);
    let copies: Vec<u64> = sorted.iter().map(|g| g.count).collect();
    assert_eq!(copies, vec![2, 3, 5]);
}

#[test]
fn sort_by_size_is_non_decreasing() {
    let groups = vec![group(0, 3, 10), group(1, 1, 5), group(2, 2, 7), group(3, 5, 1)];
    let sorted = sorted_duplicates(groups, SortKey::Size);
    let sizes: Vec<u64> = sorted.iter().map(|g| g.function_size).collect();
    assert_eq!(sizes, vec![1, 7, 10]);
}

#[test]
fn singleton_groups_are_excluded_from_the_listing() {
    let groups = vec![group(0, 1, 10), group(1, 1, 5)];
    let sorted = sorted_duplicates(groups, SortKey::ExcessBytes);
    assert!(sorted.is_empty());
}
