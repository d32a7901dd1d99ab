use process_monitor::snapshot::ProcessSnapshotEntry;
use process_monitor::tree::{ProcessTree, TreeRow};

fn entry(pid: u32, parent: u32) -> ProcessSnapshotEntry {
    ProcessSnapshotEntry::new(pid, parent, 0, 0, format!("p{}", pid), format!("/bin/p{}", pid))
}

fn row(pid: u32, depth: usize) -> TreeRow {
    TreeRow { pid, depth }
}

fn walk_of(snapshot: &Vec<ProcessSnapshotEntry>) -> Vec<TreeRow> {
    ProcessTree::build(snapshot).walk(snapshot.len())
}

#[test]
fn children_are_listed_under_their_parent() {
    let snapshot = vec![entry(1, 0), entry(2, 1), entry(3, 1), entry(4, 2)];
    let tree = ProcessTree::build(&snapshot);
    assert_eq!(tree.children(0), vec![1]);
    assert_eq!(tree.children(1), vec![2, 3]);
    assert_eq!(tree.children(2), vec![4]);
    assert_eq!(tree.children(3), Vec::<u32>::new());
    assert_eq!(tree.children(4), Vec::<u32>::new());
    assert_eq!(tree.children(99), Vec::<u32>::new());
}

#[test]
fn siblings_keep_snapshot_order() {
    let snapshot = vec![entry(9, 1), entry(1, 0), entry(5, 1), entry(7, 1), entry(3, 1)];
    let tree = ProcessTree::build(&snapshot);
    assert_eq!(tree.children(1), vec![9, 5, 7, 3]);
}

#[test]
fn grandchild_follows_child_follows_parent() {
    let snapshot = vec![entry(10, 0), entry(20, 10), entry(30, 20)];
    let rows = walk_of(&snapshot);
    assert_eq!(rows, vec![row(0, 0), row(10, 1), row(20, 2), row(30, 3)]);
    let a = rows.iter().position(|r| r.pid == 10).unwrap();
    let b = rows.iter().position(|r| r.pid == 20).unwrap();
    let c = rows.iter().position(|r| r.pid == 30).unwrap();
    assert!(a < b && b < c);
    assert_eq!(rows[b].depth, rows[a].depth + 1);
    assert_eq!(rows[c].depth, rows[a].depth + 2);
}

#[test]
fn walk_does_not_depend_on_the_order_of_parent_and_child_entries() {
    let snapshot = vec![entry(30, 20), entry(20, 10), entry(10, 0)];
    assert_eq!(walk_of(&snapshot), vec![row(0, 0), row(10, 1), row(20, 2), row(30, 3)]);
}

#[test]
fn process_with_absent_parent_hangs_under_the_root() {
    let snapshot = vec![entry(1, 0), entry(50, 999), entry(51, 50)];
    let tree = ProcessTree::build(&snapshot);
    assert_eq!(tree.children(0), vec![1, 50]);
    assert_eq!(tree.children(999), Vec::<u32>::new());
    assert_eq!(walk_of(&snapshot), vec![row(0, 0), row(1, 1), row(50, 1), row(51, 2)]);
}

#[test]
fn walk_is_depth_first_in_pre_order() {
    let snapshot =
        vec![entry(1, 0), entry(2, 0), entry(3, 1), entry(4, 1), entry(5, 3), entry(6, 2)];
    assert_eq!(
        walk_of(&snapshot),
        vec![row(0, 0), row(1, 1), row(3, 2), row(5, 3), row(4, 2), row(2, 1), row(6, 2)]
    );
}

#[test]
fn repeated_pid_is_placed_once_by_its_first_entry() {
    let snapshot = vec![entry(1, 0), entry(2, 1), entry(2, 0), entry(2, 1), entry(3, 2)];
    let tree = ProcessTree::build(&snapshot);
    assert_eq!(tree.children(0), vec![1]);
    assert_eq!(tree.children(1), vec![2]);
    assert_eq!(walk_of(&snapshot), vec![row(0, 0), row(1, 1), row(2, 2), row(3, 3)]);
}

#[test]
fn empty_snapshot_has_only_the_root() {
    let snapshot: Vec<ProcessSnapshotEntry> = Vec::new();
    let tree = ProcessTree::build(&snapshot);
    assert_eq!(tree.children(0), Vec::<u32>::new());
    assert_eq!(walk_of(&snapshot), vec![row(0, 0)]);
}

#[test]
fn cycle_does_not_loop() {
    let snapshot = vec![entry(5, 6), entry(6, 5), entry(1, 0)];
    let tree = ProcessTree::build(&snapshot);
    assert_eq!(tree.children(5), vec![6]);
    assert_eq!(tree.children(6), vec![5]);
    assert_eq!(walk_of(&snapshot), vec![row(0, 0), row(1, 1)]);
}

#[test]
fn process_that_is_its_own_parent_does_not_loop() {
    let snapshot = vec![entry(7, 7), entry(1, 0)];
    assert_eq!(walk_of(&snapshot), vec![row(0, 0), row(1, 1)]);
}

#[test]
fn process_with_the_root_pid_is_never_a_child() {
    let snapshot = vec![entry(0, 0), entry(1, 0), entry(2, 1)];
    let tree = ProcessTree::build(&snapshot);
    assert_eq!(tree.children(0), vec![1]);
    assert_eq!(walk_of(&snapshot), vec![row(0, 0), row(1, 1), row(2, 2)]);
    let snapshot = vec![entry(1, 0), entry(0, 1)];
    assert_eq!(walk_of(&snapshot), vec![row(0, 0), row(1, 1)]);
}

#[test]
fn walk_goes_no_deeper_than_its_limit() {
    let snapshot = vec![entry(1, 0), entry(2, 1), entry(3, 2)];
    let tree = ProcessTree::build(&snapshot);
    assert_eq!(tree.walk(0), vec![row(0, 0)]);
    assert_eq!(tree.walk(1), vec![row(0, 0), row(1, 1)]);
    assert_eq!(tree.walk(2), vec![row(0, 0), row(1, 1), row(2, 2)]);
    assert_eq!(tree.walk(3), vec![row(0, 0), row(1, 1), row(2, 2), row(3, 3)]);
    assert_eq!(tree.walk(usize::MAX), vec![row(0, 0), row(1, 1), row(2, 2), row(3, 3)]);
}

#[test]
fn deep_chain_is_walked_to_its_end() {
    let mut snapshot = Vec::new();
    for pid in 1..=200u32 {
        snapshot.push(entry(pid, pid - 1));
    }
    let rows = walk_of(&snapshot);
    assert_eq!(rows.len(), 201);
    for (k, r) in rows.iter().enumerate() {
        assert_eq!(*r, row(k as u32, k));
    }
}
