use process_monitor::cache::{MetadataCache, ProcessMetadata, StatusRead};
use process_monitor::report::{
    format_header, format_list_row, format_root_row, format_total_cpu, format_total_memory,
    format_tree_row, render_list, render_tree, tree_name_width, LIST_NAME_WIDTH,
    TREE_HEADER_NAME_WIDTH,
};
use process_monitor::snapshot::ProcessSnapshotEntry;

fn entry(pid: u32, parent: u32, cpu_hundredths: u64, memory_kb: u64) -> ProcessSnapshotEntry {
    ProcessSnapshotEntry::new(
        pid,
        parent,
        cpu_hundredths,
        memory_kb,
        format!("proc{}", pid),
        format!("/bin/proc{}", pid),
    )
}

fn metadata(name: &str, exe_path: &str, owner: &str) -> ProcessMetadata {
    ProcessMetadata {
        name: String::from(name),
        exe_path: String::from(exe_path),
        owner: String::from(owner),
    }
}

fn no_reads() -> Vec<StatusRead> {
    Vec::new()
}

fn indent_of(line: &str) -> usize {
    line.len() - line.trim_start().len()
}

#[test]
fn total_cpu_line_has_two_decimals() {
    assert_eq!(format_total_cpu(1500), "  Total CPU used: 15.00%");
    assert_eq!(format_total_cpu(0), "  Total CPU used: 0.00%");
    assert_eq!(format_total_cpu(12345), "  Total CPU used: 123.45%");
}

#[test]
fn total_memory_line_is_in_kilobytes() {
    assert_eq!(format_total_memory(1500), "  Total memory used: 1500 KB");
    assert_eq!(format_total_memory(0), "  Total memory used: 0 KB");
}

#[test]
fn header_names_the_five_columns() {
    let expected = format!(
        "  {:<40} {:<10} {:<15} {:<105} {:<17}",
        "Nume Proces", "CPU (%)", "Memorie (KB)", "Calea Executabilului", "Utilizator"
    );
    assert_eq!(format_header(LIST_NAME_WIDTH), expected);
    let expected = format!(
        "  {:<46} {:<10} {:<15} {:<105} {:<17}",
        "Nume Proces", "CPU (%)", "Memorie (KB)", "Calea Executabilului", "Utilizator"
    );
    assert_eq!(format_header(TREE_HEADER_NAME_WIDTH), expected);
}

#[test]
fn list_row_aligns_its_columns() {
    let e = entry(1, 0, 1000, 2048);
    let line = format_list_row(&e, &metadata("init", "/sbin/init", "root"));
    let expected =
        format!("  {:<40} {:<10} {:<15} {:<105} {:<17}", "init", "10.00", 2048, "/sbin/init", "root");
    assert_eq!(line, expected);
    assert_eq!(line.len(), 2 + 40 + 1 + 10 + 1 + 15 + 1 + 105 + 1 + 17);
}

#[test]
fn list_row_does_not_cut_long_text() {
    let long_name = "n".repeat(50);
    let long_path = "/".repeat(120);
    let e = entry(1, 0, 123_456_789_012, u64::MAX);
    let line = format_list_row(&e, &metadata(&long_name, &long_path, "an-account-with-a-long-name"));
    let expected = format!(
        "  {:<40} {:<10} {:<15} {:<105} {:<17}",
        long_name, "1234567890.12", u64::MAX, long_path, "an-account-with-a-long-name"
    );
    assert_eq!(line, expected);
}

#[test]
fn name_column_of_the_tree_narrows_with_depth() {
    assert_eq!(tree_name_width(0), 44);
    assert_eq!(tree_name_width(1), 42);
    assert_eq!(tree_name_width(2), 40);
    assert_eq!(tree_name_width(3), 38);
    assert_eq!(tree_name_width(4), 36);
    assert_eq!(tree_name_width(5), 34);
    assert_eq!(tree_name_width(6), 32);
}

#[test]
fn name_column_of_the_tree_stays_at_its_least_width_below_depth_six() {
    assert_eq!(tree_name_width(7), 32);
    assert_eq!(tree_name_width(100), 32);
    assert_eq!(tree_name_width(usize::MAX), 32);
}

#[test]
fn tree_row_is_indented_by_two_spaces_per_level() {
    let e = entry(1, 0, 525, 77);
    let m = metadata("bash", "/bin/bash", "alice");
    for depth in 0..10usize {
        let width = if depth < 6 { 44 - 2 * depth } else { 32 };
        let expected = format!(
            "  {}- {:<width$} {:<10} {:<15} {:<105} {:<17}",
            "  ".repeat(depth),
            "bash",
            "5.25",
            77,
            "/bin/bash",
            "alice",
            width = width
        );
        assert_eq!(format_tree_row(&e, &m, depth), expected, "depth {}", depth);
    }
}

#[test]
fn root_row_names_the_synthetic_root() {
    assert_eq!(format_root_row(0), "  - [Sistem] (PID: 0)");
    assert_eq!(format_root_row(2), "      - [Sistem] (PID: 0)");
}

#[test]
fn list_of_two_processes() {
    let snapshot = vec![entry(1, 0, 1000, 1000), entry(2, 1, 500, 500)];
    let mut cache = MetadataCache::new();
    let lines = render_list(&snapshot, &mut cache, &no_reads());
    assert_eq!(lines.len(), 5);
    assert_eq!(lines[0], "  Total CPU used: 15.00%");
    assert_eq!(lines[1], "  Total memory used: 1500 KB");
    assert_eq!(lines[2], format_header(40));
    assert_eq!(
        lines[3],
        format!("  {:<40} {:<10} {:<15} {:<105} {:<17}", "proc1", "10.00", 1000, "/bin/proc1", "Unknown")
    );
    assert_eq!(
        lines[4],
        format!("  {:<40} {:<10} {:<15} {:<105} {:<17}", "proc2", "5.00", 500, "/bin/proc2", "Unknown")
    );
}

#[test]
fn tree_of_parent_and_child() {
    let snapshot = vec![entry(1, 0, 1000, 1000), entry(2, 1, 500, 500)];
    let mut cache = MetadataCache::new();
    let lines = render_tree(&snapshot, &mut cache, &no_reads());
    assert_eq!(lines.len(), 6);
    assert_eq!(lines[0], "  Total CPU used: 15.00%");
    assert_eq!(lines[1], "  Total memory used: 1500 KB");
    assert_eq!(lines[2], format_header(46));
    assert_eq!(lines[3], "  - [Sistem] (PID: 0)");
    assert_eq!(
        lines[4],
        format!("    - {:<42} {:<10} {:<15} {:<105} {:<17}", "proc1", "10.00", 1000, "/bin/proc1", "Unknown")
    );
    assert_eq!(
        lines[5],
        format!("      - {:<40} {:<10} {:<15} {:<105} {:<17}", "proc2", "5.00", 500, "/bin/proc2", "Unknown")
    );
    assert!(lines[4].trim_start().starts_with("- proc1 "));
    assert!(lines[5].trim_start().starts_with("- proc2 "));
    assert_eq!(indent_of(&lines[5]), indent_of(&lines[4]) + 2);
}

#[test]
fn tree_shows_grandchild_two_levels_below() {
    let snapshot = vec![entry(10, 0, 0, 0), entry(20, 10, 0, 0), entry(30, 20, 0, 0)];
    let mut cache = MetadataCache::new();
    let lines = render_tree(&snapshot, &mut cache, &no_reads());
    let a = lines.iter().position(|l| l.contains("proc10 ")).unwrap();
    let b = lines.iter().position(|l| l.contains("proc20 ")).unwrap();
    let c = lines.iter().position(|l| l.contains("proc30 ")).unwrap();
    assert!(a < b && b < c);
    assert_eq!(indent_of(&lines[b]), indent_of(&lines[a]) + 2);
    assert_eq!(indent_of(&lines[c]), indent_of(&lines[a]) + 4);
}

#[test]
fn tree_shows_a_process_with_absent_parent_under_the_root() {
    let snapshot = vec![entry(1, 0, 0, 0), entry(50, 999, 0, 0)];
    let mut cache = MetadataCache::new();
    let lines = render_tree(&snapshot, &mut cache, &no_reads());
    assert_eq!(lines.len(), 6);
    let root = indent_of(&lines[3]);
    let orphan = lines.iter().position(|l| l.contains("proc50 ")).unwrap();
    assert_eq!(indent_of(&lines[orphan]), root + 2);
    assert_eq!(
        lines[orphan],
        format_tree_row(&snapshot[1], &ProcessMetadata::from_entry(&snapshot[1], None), 1)
    );
}

#[test]
fn tree_shows_the_process_with_the_root_pid_in_place_of_the_synthetic_root() {
    let snapshot = vec![entry(0, 0, 100, 10), entry(1, 0, 200, 20)];
    let mut cache = MetadataCache::new();
    let lines = render_tree(&snapshot, &mut cache, &no_reads());
    assert_eq!(lines.len(), 5);
    assert_eq!(
        lines[3],
        format!("  - {:<44} {:<10} {:<15} {:<105} {:<17}", "proc0", "1.00", 10, "/bin/proc0", "Unknown")
    );
    assert!(lines.iter().all(|l| !l.contains("[Sistem]")));
    assert_eq!(indent_of(&lines[4]), indent_of(&lines[3]) + 2);
}

#[test]
fn tree_of_the_empty_snapshot_shows_the_synthetic_root() {
    let snapshot: Vec<ProcessSnapshotEntry> = Vec::new();
    let mut cache = MetadataCache::new();
    let lines = render_tree(&snapshot, &mut cache, &no_reads());
    assert_eq!(
        lines,
        vec![
            String::from("  Total CPU used: 0.00%"),
            String::from("  Total memory used: 0 KB"),
            format_header(46),
            String::from("  - [Sistem] (PID: 0)"),
        ]
    );
}

#[test]
fn list_of_the_empty_snapshot_is_the_heading() {
    let snapshot: Vec<ProcessSnapshotEntry> = Vec::new();
    let mut cache = MetadataCache::new();
    let lines = render_list(&snapshot, &mut cache, &no_reads());
    assert_eq!(
        lines,
        vec![
            String::from("  Total CPU used: 0.00%"),
            String::from("  Total memory used: 0 KB"),
            format_header(40),
        ]
    );
}

#[test]
fn repeated_pid_gives_one_row_and_counts_once() {
    let snapshot = vec![entry(1, 0, 1000, 1000), entry(1, 0, 1000, 1000), entry(2, 1, 500, 500)];
    let mut cache = MetadataCache::new();
    let list = render_list(&snapshot, &mut cache, &no_reads());
    assert_eq!(list.len(), 5);
    assert_eq!(list[0], "  Total CPU used: 15.00%");
    assert_eq!(list[1], "  Total memory used: 1500 KB");
    let tree = render_tree(&snapshot, &mut cache, &no_reads());
    assert_eq!(tree.len(), 6);
    assert_eq!(tree[0], "  Total CPU used: 15.00%");
}

#[test]
fn rendering_fills_the_cache() {
    let snapshot = vec![entry(1, 0, 0, 0), entry(2, 1, 0, 0)];
    let mut cache = MetadataCache::new();
    assert_eq!(cache.pending_lookups(&snapshot), vec![1, 2]);
    render_list(&snapshot, &mut cache, &no_reads());
    assert!(cache.contains(1));
    assert!(cache.contains(2));
    assert_eq!(cache.pending_lookups(&snapshot), Vec::<u32>::new());
}

#[test]
fn rows_show_the_metadata_that_the_cache_holds() {
    let mut cache = MetadataCache::new();
    render_list(&vec![entry(1, 0, 0, 0)], &mut cache, &no_reads());
    let renamed = vec![ProcessSnapshotEntry::new(
        1,
        0,
        700,
        9,
        String::from("another"),
        String::from("/opt/another"),
    )];
    let lines = render_list(&renamed, &mut cache, &no_reads());
    assert_eq!(
        lines[3],
        format!("  {:<40} {:<10} {:<15} {:<105} {:<17}", "proc1", "7.00", 9, "/bin/proc1", "Unknown")
    );
}

#[test]
fn rows_show_the_owner_resolved_from_the_status_text() {
    let root = users::get_user_by_uid(0)
        .map(|user| user.name().to_string_lossy().into_owned())
        .unwrap_or(String::from("Unknown"));
    let reads = vec![StatusRead { pid: 1, content: Some(b"Name:\tinit\nUid:\t0\t0\t0\t0\n".to_vec()) }];
    let mut cache = MetadataCache::new();
    let lines = render_list(&vec![entry(1, 0, 0, 0)], &mut cache, &reads);
    assert_eq!(
        lines[3],
        format!("  {:<40} {:<10} {:<15} {:<105} {:<17}", "proc1", "0.00", 0, "/bin/proc1", root)
    );
}
