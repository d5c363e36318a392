use spawners::descendants::descendant_pids;
use spawners::process::ProcessRecord;

fn rec(pid: u32, parent_pid: u32) -> ProcessRecord {
    ProcessRecord { pid, parent_pid, executable_name: String::new() }
}

fn as_sorted(mut v: Vec<u32>) -> Vec<u32> {
    v.sort();
    v
}

#[test]
fn collects_direct_children() {
    let records = vec![rec(2, 1), rec(3, 1), rec(4, 9)];
    let d = descendant_pids(&records, &vec![1]);
    assert_eq!(as_sorted(d), vec![2, 3]);
}

#[test]
fn collects_grandchildren_transitively() {
    let records = vec![rec(5, 3), rec(3, 2), rec(2, 1), rec(9, 5)];
    let d = descendant_pids(&records, &vec![1]);
    assert_eq!(as_sorted(d), vec![2, 3, 5, 9]);
}

#[test]
fn never_includes_a_root() {
    // pid 1 appears as a child of 2, but it is a root and stays out
    let records = vec![rec(2, 1), rec(1, 2), rec(3, 1)];
    let d = descendant_pids(&records, &vec![1]);
    assert!(!d.contains(&1));
    assert_eq!(as_sorted(d), vec![2, 3]);
}

#[test]
fn is_idempotent_on_roots_plus_descendants() {
    let records = vec![rec(2, 1), rec(3, 2), rec(4, 3)];
    let first = descendant_pids(&records, &vec![1]);
    assert_eq!(as_sorted(first.clone()), vec![2, 3, 4]);
    let mut widened = vec![1];
    widened.extend(first);
    let again = descendant_pids(&records, &widened);
    assert!(again.is_empty());
}

#[test]
fn snapshot_order_does_not_matter() {
    let forward = vec![rec(2, 1), rec(3, 2), rec(4, 3)];
    let backward = vec![rec(4, 3), rec(3, 2), rec(2, 1)];
    let a = as_sorted(descendant_pids(&forward, &vec![1]));
    let b = as_sorted(descendant_pids(&backward, &vec![1]));
    assert_eq!(a, vec![2, 3, 4]);
    assert_eq!(a, b);
}

#[test]
fn unreachable_cycle_is_ignored() {
    // a malformed snapshot with a cycle nowhere near the roots
    let records = vec![rec(10, 11), rec(11, 10), rec(2, 1)];
    let d = descendant_pids(&records, &vec![1]);
    assert_eq!(d, vec![2]);
}

#[test]
fn empty_roots_have_no_descendants() {
    let records = vec![rec(2, 1), rec(3, 2)];
    let d = descendant_pids(&records, &Vec::new());
    assert!(d.is_empty());
}

#[test]
fn duplicate_parent_records_yield_one_entry() {
    let records = vec![rec(2, 1), rec(2, 1)];
    let d = descendant_pids(&records, &vec![1]);
    assert_eq!(d, vec![2]);
}
