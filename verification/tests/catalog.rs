use rusty_cleaner::catalog::Catalog;
use rusty_cleaner::sizes::{deletion_percent, total_size};

fn names(c: &Catalog) -> Vec<String> {
    (0..c.category_count()).map(|i| c.name(i).to_string()).collect()
}

fn group(c: &Catalog, i: usize) -> Vec<usize> {
    (0..c.group_len(i)).map(|j| c.member(i, j)).collect()
}

#[test]
fn record_numbers_folders_in_order() {
    let mut c = Catalog::new();
    assert_eq!(c.record("Rust".to_string()), 0);
    assert_eq!(c.record("JavaScript".to_string()), 1);
    assert_eq!(c.record("Rust".to_string()), 2);
    assert_eq!(c.folders(), 3);
}

#[test]
fn categories_are_sorted_and_distinct() {
    let mut c = Catalog::new();
    for n in ["vendor", "Rust", "Python", "Rust", ".env", "Java (Maven)", "Java (Gradle)", "Python"] {
        c.record(n.to_string());
    }
    assert_eq!(
        names(&c),
        vec![".env", "Java (Gradle)", "Java (Maven)", "Python", "Rust", "vendor"]
    );
    assert_eq!(group(&c, 4), vec![1, 3]);
    assert_eq!(group(&c, 3), vec![2, 7]);
    assert_eq!(group(&c, 0), vec![4]);
}

#[test]
fn empty_catalog() {
    let c = Catalog::new();
    assert_eq!(c.category_count(), 0);
    assert_eq!(c.folders(), 0);
    assert_eq!(c.total_size(&vec![]), 0);
}

#[test]
fn sizes_add_up_per_category_and_overall() {
    let mut c = Catalog::new();
    c.record("Rust".to_string());
    c.record("JavaScript".to_string());
    c.record("Rust".to_string());
    c.record("JavaScript".to_string());
    let sizes = vec![10, 200, 3000, 40000];
    assert_eq!(c.category_size(0, &sizes), 40200);
    assert_eq!(c.category_size(1, &sizes), 3010);
    assert_eq!(c.total_size(&sizes), 43210);
    // Every folder counted once: the same as summing all sizes.
    assert_eq!(c.total_size(&sizes), sizes.iter().map(|s| *s as u128).sum::<u128>());
}

#[test]
fn missing_sizes_count_as_zero() {
    let mut c = Catalog::new();
    c.record("Rust".to_string());
    c.record("Rust".to_string());
    assert_eq!(c.category_size(0, &vec![7]), 7);
    assert_eq!(total_size(&vec![0, 1, 5], &vec![7, 8]), 15);
}

#[test]
fn totals_do_not_overflow() {
    let sizes = vec![u64::MAX, u64::MAX, u64::MAX];
    assert_eq!(total_size(&vec![0, 1, 2], &sizes), 3 * (u64::MAX as u128));
    let mut c = Catalog::new();
    c.record("a".to_string());
    c.record("b".to_string());
    c.record("a".to_string());
    assert_eq!(c.total_size(&sizes), 3 * (u64::MAX as u128));
}

#[test]
fn deletion_progress() {
    assert_eq!(deletion_percent(0, 0), 0);
    assert_eq!(deletion_percent(0, 3), 0);
    assert_eq!(deletion_percent(1, 3), 33);
    assert_eq!(deletion_percent(2, 3), 66);
    assert_eq!(deletion_percent(3, 3), 100);
}
