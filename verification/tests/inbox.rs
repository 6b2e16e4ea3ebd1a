use crabwalk::inbox::{inbox_batch, sort_by_name, InboxEntry, PrunePlan};
use crabwalk::tracker::MAX_FILES_PER_POLL;

fn names(list: &[&str]) -> Vec<Vec<u8>> {
    list.iter().map(|s| s.as_bytes().to_vec()).collect()
}

fn entry(name: &str, size: u64, mtime_ms: i64) -> InboxEntry {
    InboxEntry { name: name.as_bytes().to_vec(), size, mtime_ms }
}

#[test]
fn a_batch_takes_only_json_in_name_order() {
    let n = names(&["300.json", "100.json", "200.tmp", "notes.txt", "200.json", "json"]);
    let batch = inbox_batch(&n);
    assert_eq!(batch, vec![1, 4, 0]);
}

#[test]
fn an_empty_inbox_gives_an_empty_batch() {
    assert!(inbox_batch(&Vec::new()).is_empty());
    assert!(inbox_batch(&names(&["a.tmp", "b.txt"])).is_empty());
}

#[test]
fn a_full_inbox_drains_the_oldest_first() {
    let mut list: Vec<Vec<u8>> = Vec::new();
    for i in (0..MAX_FILES_PER_POLL + 50).rev() {
        list.push(format!("{:06}.json", i).into_bytes());
    }
    let batch = inbox_batch(&list);
    assert_eq!(batch.len(), MAX_FILES_PER_POLL);
    assert_eq!(list[batch[0]], b"000000.json".to_vec());
    let last = format!("{:06}.json", MAX_FILES_PER_POLL - 1).into_bytes();
    assert_eq!(list[batch[MAX_FILES_PER_POLL - 1]], last);
}

#[test]
fn sorting_orders_by_bytes_and_shorter_prefix_first() {
    let n = names(&["b", "ab", "a", "B"]);
    let order = sort_by_name(&n, &vec![0, 1, 2, 3]);
    assert_eq!(order, vec![3, 2, 1, 0]);
    let some = sort_by_name(&n, &vec![0, 2]);
    assert_eq!(some, vec![2, 0]);
}

#[test]
fn pruning_drops_old_files_and_keeps_fresh_ones() {
    let entries = vec![
        entry("3.json", 10, 9_000),
        entry("1.json", 10, 1_000),
        entry("2.tmp", 10, 1_500),
        entry("0.txt", 10, 0),
    ];
    let mut plan = PrunePlan::new(&entries, 10_000, 5_000, 1_000);
    assert_eq!(plan.aged(), &vec![1, 2]);
    assert_eq!(plan.total(), 10);
    assert_eq!(plan.next_over_budget(), None);
}

#[test]
fn pruning_removes_oldest_until_within_budget() {
    let entries = vec![
        entry("c.json", 40, 100),
        entry("a.json", 40, 100),
        entry("b.json", 40, 100),
    ];
    let mut plan = PrunePlan::new(&entries, 100, 1_000, 50);
    assert!(plan.aged().is_empty());
    assert_eq!(plan.total(), 120);
    assert_eq!(plan.next_over_budget(), Some(1));
    plan.confirm_removed();
    assert_eq!(plan.total(), 80);
    assert_eq!(plan.next_over_budget(), Some(2));
    plan.confirm_removed();
    assert_eq!(plan.total(), 40);
    assert_eq!(plan.next_over_budget(), None);
}

#[test]
fn a_failed_deletion_keeps_its_bytes_counted() {
    let entries = vec![entry("a.json", 40, 0), entry("b.json", 40, 0)];
    let mut plan = PrunePlan::new(&entries, 0, 1_000, 10);
    assert_eq!(plan.next_over_budget(), Some(0));
    // Not confirmed: the file could not be removed.
    assert_eq!(plan.next_over_budget(), Some(1));
    plan.confirm_removed();
    assert_eq!(plan.total(), 40);
    assert_eq!(plan.next_over_budget(), None);
}
