use process_monitor::aggregate::totals;
use process_monitor::snapshot::{first_occurrences, index_by_pid, ProcessSnapshotEntry, ROOT_PID};

fn entry(pid: u32, parent: u32, cpu_hundredths: u64, memory_kb: u64) -> ProcessSnapshotEntry {
    ProcessSnapshotEntry::new(
        pid,
        parent,
        cpu_hundredths,
        memory_kb,
        format!("proc{}", pid),
        format!("/bin/proc{}", pid),
    )
}

#[test]
fn new_keeps_its_arguments() {
    let e = ProcessSnapshotEntry::new(7, 1, 250, 4096, String::from("sh"), String::from("/bin/sh"));
    assert_eq!(e.pid, 7);
    assert_eq!(e.parent, 1);
    assert_eq!(e.cpu_hundredths, 250);
    assert_eq!(e.memory_kb, 4096);
    assert_eq!(e.name, "sh");
    assert_eq!(e.exe_path, "/bin/sh");
}

#[test]
fn root_pid_is_zero() {
    assert_eq!(ROOT_PID, 0);
}

#[test]
fn first_occurrences_of_distinct_pids_are_all_positions() {
    let snapshot = vec![entry(1, 0, 0, 0), entry(2, 1, 0, 0), entry(3, 1, 0, 0)];
    assert_eq!(first_occurrences(&snapshot), vec![0, 1, 2]);
}

#[test]
fn first_occurrences_skip_repeated_pids() {
    let snapshot =
        vec![entry(5, 0, 0, 0), entry(6, 5, 0, 0), entry(5, 0, 0, 0), entry(7, 5, 0, 0), entry(6, 5, 0, 0)];
    assert_eq!(first_occurrences(&snapshot), vec![0, 1, 3]);
}

#[test]
fn first_occurrences_of_the_empty_snapshot() {
    let snapshot: Vec<ProcessSnapshotEntry> = Vec::new();
    assert_eq!(first_occurrences(&snapshot), Vec::<usize>::new());
}

#[test]
fn index_points_at_the_first_entry_of_each_pid() {
    let snapshot = vec![entry(5, 0, 0, 0), entry(6, 5, 0, 0), entry(5, 0, 0, 0), entry(7, 5, 0, 0)];
    let index = index_by_pid(&snapshot);
    assert_eq!(index.len(), 3);
    assert_eq!(index.get(&5), Some(&0));
    assert_eq!(index.get(&6), Some(&1));
    assert_eq!(index.get(&7), Some(&3));
    assert_eq!(index.get(&8), None);
}

#[test]
fn totals_sum_cpu_and_memory() {
    let snapshot = vec![entry(1, 0, 1000, 1000), entry(2, 1, 500, 500)];
    let t = totals(&snapshot);
    assert_eq!(t.cpu_hundredths, 1500);
    assert_eq!(t.memory_kb, 1500);
}

#[test]
fn totals_of_the_empty_snapshot_are_zero() {
    let snapshot: Vec<ProcessSnapshotEntry> = Vec::new();
    let t = totals(&snapshot);
    assert_eq!(t.cpu_hundredths, 0);
    assert_eq!(t.memory_kb, 0);
}

#[test]
fn totals_do_not_count_a_pid_twice() {
    let snapshot = vec![
        entry(1, 0, 1000, 1000),
        entry(2, 1, 500, 500),
        entry(1, 0, 1000, 1000),
        entry(2, 1, 500, 500),
        entry(2, 1, 500, 500),
    ];
    let t = totals(&snapshot);
    assert_eq!(t.cpu_hundredths, 1500);
    assert_eq!(t.memory_kb, 1500);
}

#[test]
fn totals_take_the_first_entry_of_a_repeated_pid() {
    let snapshot = vec![entry(1, 0, 100, 10), entry(1, 0, 900, 90), entry(3, 1, 1, 1)];
    let t = totals(&snapshot);
    assert_eq!(t.cpu_hundredths, 101);
    assert_eq!(t.memory_kb, 11);
}

#[test]
fn totals_are_not_capped_at_one_hundred_percent() {
    let snapshot = vec![entry(1, 0, 9_000, 1), entry(2, 0, 9_000, 1), entry(3, 0, 9_000, 1)];
    assert_eq!(totals(&snapshot).cpu_hundredths, 27_000);
}

#[test]
fn totals_exceed_sixty_four_bits_without_wrapping() {
    let snapshot = vec![entry(1, 0, u64::MAX, u64::MAX), entry(2, 0, u64::MAX, u64::MAX)];
    let t = totals(&snapshot);
    assert_eq!(t.cpu_hundredths, 2 * (u64::MAX as u128));
    assert_eq!(t.memory_kb, 2 * (u64::MAX as u128));
}
