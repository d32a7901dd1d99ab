use process_monitor::cache::{find_status, MetadataCache, ProcessMetadata, StatusRead};
use process_monitor::snapshot::ProcessSnapshotEntry;

fn entry(pid: u32, name: &str, exe_path: &str) -> ProcessSnapshotEntry {
    ProcessSnapshotEntry::new(pid, 0, 0, 0, String::from(name), String::from(exe_path))
}

fn metadata(name: &str, exe_path: &str, owner: &str) -> ProcessMetadata {
    ProcessMetadata {
        name: String::from(name),
        exe_path: String::from(exe_path),
        owner: String::from(owner),
    }
}

fn same(a: &ProcessMetadata, b: &ProcessMetadata) -> bool {
    a.name.as_bytes() == b.name.as_bytes()
        && a.exe_path.as_bytes() == b.exe_path.as_bytes()
        && a.owner.as_bytes() == b.owner.as_bytes()
}

fn account_of(uid: u32) -> Option<String> {
    users::get_user_by_uid(uid).map(|user| user.name().to_string_lossy().into_owned())
}

#[test]
fn metadata_takes_name_and_executable_from_the_entry() {
    let m = ProcessMetadata::from_entry(&entry(3, "bash", "/bin/bash"), Some(String::from("alice")));
    assert!(same(&m, &metadata("bash", "/bin/bash", "alice")));
}

#[test]
fn metadata_without_owner_shows_the_placeholder() {
    let m = ProcessMetadata::from_entry(&entry(3, "bash", "/bin/bash"), None);
    assert!(same(&m, &metadata("bash", "/bin/bash", "Unknown")));
}

#[test]
fn clone_copies_every_field() {
    let m = metadata("a", "b", "c");
    assert!(same(&m.clone(), &m));
}

#[test]
fn new_cache_is_empty() {
    let cache = MetadataCache::new();
    assert!(!cache.contains(1));
    assert!(cache.get(1).is_none());
    assert_eq!(cache.pending_lookups(&vec![entry(1, "a", "b")]), vec![1]);
}

#[test]
fn get_or_insert_stores_on_a_miss() {
    let mut cache = MetadataCache::new();
    let got = cache.get_or_insert(9, metadata("a", "/a", "root"));
    assert!(same(&got, &metadata("a", "/a", "root")));
    assert!(cache.contains(9));
    assert!(same(cache.get(9).unwrap(), &metadata("a", "/a", "root")));
}

#[test]
fn get_or_insert_keeps_what_is_held_on_a_hit() {
    let mut cache = MetadataCache::new();
    cache.get_or_insert(9, metadata("a", "/a", "root"));
    let got = cache.get_or_insert(9, metadata("b", "/b", "alice"));
    assert!(same(&got, &metadata("a", "/a", "root")));
    assert!(same(cache.get(9).unwrap(), &metadata("a", "/a", "root")));
}

#[test]
fn get_or_compute_twice_returns_identical_metadata() {
    let mut cache = MetadataCache::new();
    let e = entry(42, "daemon", "/usr/sbin/daemon");
    let first = cache.get_or_compute(42, &e, None);
    let second = cache.get_or_compute(42, &e, None);
    assert!(same(&first, &second));
    assert!(same(&first, &metadata("daemon", "/usr/sbin/daemon", "Unknown")));
}

#[test]
fn get_or_compute_does_not_resolve_again_on_a_hit() {
    let mut cache = MetadataCache::new();
    let first = cache.get_or_compute(42, &entry(42, "daemon", "/usr/sbin/daemon"), None);
    let status = b"Uid:\t0\t0\t0\t0\n";
    let second = cache.get_or_compute(42, &entry(42, "other", "/bin/other"), Some(&status[..]));
    assert!(same(&first, &second));
    assert_eq!(second.owner, "Unknown");
    assert_eq!(second.name, "daemon");
}

#[test]
fn get_or_compute_resolves_the_owner_from_the_status_text() {
    let mut cache = MetadataCache::new();
    let status = b"Name:\tinit\nUid:\t0\t0\t0\t0\n";
    let got = cache.get_or_compute(1, &entry(1, "init", "/sbin/init"), Some(&status[..]));
    let expected = account_of(0).unwrap_or(String::from("Unknown"));
    assert!(same(&got, &metadata("init", "/sbin/init", &expected)));
}

#[test]
fn get_or_compute_without_uid_line_shows_the_placeholder() {
    let mut cache = MetadataCache::new();
    let status = b"Name:\tinit\n";
    let got = cache.get_or_compute(1, &entry(1, "init", "/sbin/init"), Some(&status[..]));
    assert_eq!(got.owner, "Unknown");
}

#[test]
fn get_or_compute_leaves_other_pids_alone() {
    let mut cache = MetadataCache::new();
    cache.get_or_compute(1, &entry(1, "a", "/a"), None);
    cache.get_or_compute(2, &entry(2, "b", "/b"), None);
    assert!(same(cache.get(1).unwrap(), &metadata("a", "/a", "Unknown")));
    assert!(same(cache.get(2).unwrap(), &metadata("b", "/b", "Unknown")));
    assert!(!cache.contains(3));
}

#[test]
fn find_status_takes_the_first_read_of_the_pid() {
    let reads = vec![
        StatusRead { pid: 1, content: Some(b"one".to_vec()) },
        StatusRead { pid: 2, content: None },
        StatusRead { pid: 1, content: Some(b"again".to_vec()) },
        StatusRead { pid: 3, content: Some(Vec::new()) },
    ];
    assert_eq!(find_status(&reads, 1), Some(&b"one"[..]));
    assert_eq!(find_status(&reads, 2), None);
    assert_eq!(find_status(&reads, 3), Some(&b""[..]));
    assert_eq!(find_status(&reads, 4), None);
}

#[test]
fn pending_lookups_are_the_uncached_pids_once_each() {
    let mut cache = MetadataCache::new();
    cache.get_or_compute(2, &entry(2, "b", "/b"), None);
    let snapshot = vec![
        entry(3, "c", "/c"),
        entry(2, "b", "/b"),
        entry(1, "a", "/a"),
        entry(3, "c", "/c"),
        entry(1, "a", "/a"),
    ];
    assert_eq!(cache.pending_lookups(&snapshot), vec![3, 1]);
}

#[test]
fn absorb_resolves_every_process_once() {
    let mut cache = MetadataCache::new();
    let snapshot = vec![entry(3, "c", "/c"), entry(1, "a", "/a"), entry(3, "late", "/late")];
    let reads = vec![StatusRead { pid: 1, content: Some(b"Uid:\t0\n".to_vec()) }];
    cache.absorb(&snapshot, &reads);
    let root = account_of(0).unwrap_or(String::from("Unknown"));
    assert!(same(cache.get(3).unwrap(), &metadata("c", "/c", "Unknown")));
    assert!(same(cache.get(1).unwrap(), &metadata("a", "/a", &root)));
    assert_eq!(cache.pending_lookups(&snapshot), Vec::<u32>::new());
}

#[test]
fn absorb_never_changes_what_is_held() {
    let mut cache = MetadataCache::new();
    cache.absorb(&vec![entry(1, "a", "/a")], &Vec::new());
    let reads = vec![StatusRead { pid: 1, content: Some(b"Uid:\t0\n".to_vec()) }];
    cache.absorb(&vec![entry(1, "renamed", "/elsewhere"), entry(2, "b", "/b")], &reads);
    assert!(same(cache.get(1).unwrap(), &metadata("a", "/a", "Unknown")));
    assert!(same(cache.get(2).unwrap(), &metadata("b", "/b", "Unknown")));
}
