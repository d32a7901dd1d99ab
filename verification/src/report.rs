//! The report: totals, a column header and one row per process, as a flat
//! list or as a tree.

use crate::aggregate::{total_cpu, total_memory, totals};
use crate::cache::{
    absorbed, reads_view, MetadataCache, MetadataView, ProcessMetadata, StatusRead,
};
use crate::snapshot::{
    distinct, first_indices, first_occurrences, first_with_pid, has_pid, index_by_pid, is_first,
    lemma_first_entry_is_found, lemma_first_indices_upto, lemma_first_with_pid, snapshot_view, EntryView, ProcessSnapshotEntry, ROOT_PID,
};
use crate::text::{
    decimal, hundredths, pad_right, push_decimal, push_hundredths, push_padded, push_spaces,
    spaces,
};
use crate::tree::{
    law_orphan_hangs_under_root, law_process_is_shown_at_its_level, level_of, rows_view,
    tree_rows, ProcessTree, RowView, TreeRow,
};
use vstd::prelude::*;
use vstd::string::*;

verus! {

/// Width of the name column of the flat list.
pub const LIST_NAME_WIDTH: usize = 40;

/// Width of the name column in the header of the tree.
pub const TREE_HEADER_NAME_WIDTH: usize = 46;

/// Width of the name column of a tree row at depth 0; each level takes two
/// characters from it.
pub const TREE_NAME_WIDTH: usize = 44;

/// The depth from which on the name column of a tree row narrows no further.
pub const MAX_NARROWING_DEPTH: usize = 6;

/// The five columns of a row, left-aligned and separated by one space.
pub open spec fn columns(
    name: Seq<char>,
    name_width: nat,
    cpu: Seq<char>,
    memory: Seq<char>,
    exe_path: Seq<char>,
    owner: Seq<char>,
) -> Seq<char> {
    pad_right(name, name_width) + spaces(1) + pad_right(cpu, 10) + spaces(1) + pad_right(
        memory,
        15,
    ) + spaces(1) + pad_right(exe_path, 105) + spaces(1) + pad_right(owner, 17)
}

/// The line that reports the total CPU usage, given in hundredths of a percent.
pub open spec fn total_cpu_line(cpu_hundredths: nat) -> Seq<char> {
    "  Total CPU used: "@ + hundredths(cpu_hundredths) + "%"@
}

/// The line that reports the total memory, given in kilobytes.
pub open spec fn total_memory_line(memory_kb: nat) -> Seq<char> {
    "  Total memory used: "@ + decimal(memory_kb) + " KB"@
}

/// The column header, with a name column of the given width.
pub open spec fn header_line(name_width: nat) -> Seq<char> {
    spaces(2) + columns(
        "Nume Proces"@,
        name_width,
        "CPU (%)"@,
        "Memorie (KB)"@,
        "Calea Executabilului"@,
        "Utilizator"@,
    )
}

/// The row of a process in the flat list.
pub open spec fn list_row(entry: EntryView, metadata: MetadataView) -> Seq<char> {
    spaces(2) + columns(
        metadata.name,
        LIST_NAME_WIDTH as nat,
        hundredths(entry.cpu_hundredths as nat),
        decimal(entry.memory_kb as nat),
        metadata.exe_path,
        metadata.owner,
    )
}

/// Width of the name column of a tree row: two characters less per level, down to depth 6.
pub open spec fn name_width(depth: nat) -> nat {
    if depth >= MAX_NARROWING_DEPTH {
        (TREE_NAME_WIDTH - 2 * MAX_NARROWING_DEPTH) as nat
    } else {
        (TREE_NAME_WIDTH - 2 * depth) as nat
    }
}

/// What stands before the columns of a tree row: the margin, two spaces per
/// level, and the bullet.
pub open spec fn tree_prefix(depth: nat) -> Seq<char> {
    spaces(2) + spaces(2 * depth) + "- "@
}

/// The row of a process in the tree, at the given depth.
pub open spec fn tree_row(entry: EntryView, metadata: MetadataView, depth: nat) -> Seq<char> {
    tree_prefix(depth) + columns(
        metadata.name,
        name_width(depth),
        hundredths(entry.cpu_hundredths as nat),
        decimal(entry.memory_kb as nat),
        metadata.exe_path,
        metadata.owner,
    )
}

/// The row that stands for the synthetic root.
pub open spec fn root_row(depth: nat) -> Seq<char> {
    tree_prefix(depth) + "[Sistem] (PID: 0)"@
}

/// The lines of a report as mathematical values.
pub open spec fn report_view(lines: Seq<String>) -> Seq<Seq<char>> {
    lines.map_values(|line: String| line@)
}

/// The three lines that open a report.
pub open spec fn heading(s: Seq<EntryView>, name_width: nat) -> Seq<Seq<char>> {
    seq![
        total_cpu_line(total_cpu(s)),
        total_memory_line(total_memory(s)),
        header_line(name_width),
    ]
}

/// The flat list of a snapshot: the heading, then one row per pid, in
/// snapshot order, with the metadata that the cache holds for it.
pub open spec fn list_lines(s: Seq<EntryView>, cache: Map<u32, MetadataView>) -> Seq<Seq<char>> {
    heading(s, LIST_NAME_WIDTH as nat) + distinct(s).map_values(
        |e: EntryView| list_row(e, cache[e.pid]),
    )
}

/// The line of one row of the walk: the row of the process with that pid;
/// for the root, where no process has its pid, the synthetic root row.
pub open spec fn row_line(s: Seq<EntryView>, cache: Map<u32, MetadataView>, row: RowView) -> Option<
    Seq<char>,
> {
    if has_pid(s, row.pid) {
        Some(tree_row(s[first_with_pid(s, s.len() as int, row.pid)], cache[row.pid], row.depth))
    } else if row.pid == ROOT_PID {
        Some(root_row(row.depth))
    } else {
        None
    }
}

/// The lines of the rows of a walk, in the order of the walk.
pub open spec fn row_lines(
    s: Seq<EntryView>,
    cache: Map<u32, MetadataView>,
    rows: Seq<RowView>,
) -> Seq<Seq<char>>
    decreases rows.len(),
{
    if rows.len() == 0 {
        Seq::empty()
    } else {
        let before = row_lines(s, cache, rows.drop_last());
        match row_line(s, cache, rows.last()) {
            Some(line) => before.push(line),
            None => before,
        }
    }
}

/// The tree view of a snapshot: the heading, then the rows of the
/// depth-first walk from the root.
pub open spec fn tree_lines(s: Seq<EntryView>, cache: Map<u32, MetadataView>) -> Seq<Seq<char>> {
    heading(s, TREE_HEADER_NAME_WIDTH as nat) + row_lines(s, cache, tree_rows(s))
}

fn push_columns(
    out: &mut String,
    name: &str,
    name_width: usize,
    cpu: &str,
    memory: &str,
    exe_path: &str,
    owner: &str,
)
    ensures
        final(out)@ == old(out)@ + columns(
            name@,
            name_width as nat,
            cpu@,
            memory@,
            exe_path@,
            owner@,
        ),
{
    push_padded(out, name, name_width);
    push_spaces(out, 1);
    push_padded(out, cpu, 10);
    push_spaces(out, 1);
    push_padded(out, memory, 15);
    push_spaces(out, 1);
    push_padded(out, exe_path, 105);
    push_spaces(out, 1);
    push_padded(out, owner, 17);
    assert(out@ =~= old(out)@ + columns(
        name@,
        name_width as nat,
        cpu@,
        memory@,
        exe_path@,
        owner@,
    ));
}

fn push_process_columns(
    out: &mut String,
    entry: &ProcessSnapshotEntry,
    metadata: &ProcessMetadata,
    name_width: usize,
)
    ensures
        final(out)@ == old(out)@ + columns(
            metadata@.name,
            name_width as nat,
            hundredths(entry@.cpu_hundredths as nat),
            decimal(entry@.memory_kb as nat),
            metadata@.exe_path,
            metadata@.owner,
        ),
{
    let mut cpu = String::new();
    push_hundredths(&mut cpu, entry.cpu_hundredths as u128);
    let mut memory = String::new();
    push_decimal(&mut memory, entry.memory_kb as u128);
    assert(cpu@ =~= hundredths(entry@.cpu_hundredths as nat));
    assert(memory@ =~= decimal(entry@.memory_kb as nat));
    push_columns(
        out,
        metadata.name.as_str(),
        name_width,
        cpu.as_str(),
        memory.as_str(),
        metadata.exe_path.as_str(),
        metadata.owner.as_str(),
    );
}

/// The line that reports the total CPU usage.
pub fn format_total_cpu(cpu_hundredths: u128) -> (line: String)
    ensures
        line@ == total_cpu_line(cpu_hundredths as nat),
{
    let mut line = String::from_str("  Total CPU used: ");
    push_hundredths(&mut line, cpu_hundredths);
    line.append("%");
    line
}

/// The line that reports the total memory.
pub fn format_total_memory(memory_kb: u128) -> (line: String)
    ensures
        line@ == total_memory_line(memory_kb as nat),
{
    let mut line = String::from_str("  Total memory used: ");
    push_decimal(&mut line, memory_kb);
    line.append(" KB");
    line
}

/// The column header, with a name column of the given width.
pub fn format_header(name_width: usize) -> (line: String)
    ensures
        line@ == header_line(name_width as nat),
{
    let mut line = String::new();
    push_spaces(&mut line, 2);
    push_columns(
        &mut line,
        "Nume Proces",
        name_width,
        "CPU (%)",
        "Memorie (KB)",
        "Calea Executabilului",
        "Utilizator",
    );
    assert(line@ =~= header_line(name_width as nat));
    line
}

/// The row of a process in the flat list.
pub fn format_list_row(entry: &ProcessSnapshotEntry, metadata: &ProcessMetadata) -> (line: String)
    ensures
        line@ == list_row(entry@, metadata@),
{
    let mut line = String::new();
    push_spaces(&mut line, 2);
    push_process_columns(&mut line, entry, metadata, LIST_NAME_WIDTH);
    assert(line@ =~= list_row(entry@, metadata@));
    line
}

fn push_tree_prefix(out: &mut String, depth: usize)
    ensures
        final(out)@ == old(out)@ + tree_prefix(depth as nat),
{
    push_spaces(out, 2);
    push_spaces(out, depth);
    push_spaces(out, depth);
    out.append("- ");
    assert(spaces(depth as nat) + spaces(depth as nat) =~= spaces(2 * (depth as nat)));
    assert(out@ =~= old(out)@ + spaces(2) + (spaces(depth as nat) + spaces(depth as nat)) + "- "@);
    assert(out@ =~= old(out)@ + tree_prefix(depth as nat));
}

/// Width of the name column of a tree row at the given depth.
pub fn tree_name_width(depth: usize) -> (width: usize)
    ensures
        width == name_width(depth as nat),
{
    if depth >= MAX_NARROWING_DEPTH {
        TREE_NAME_WIDTH - 2 * MAX_NARROWING_DEPTH
    } else {
        TREE_NAME_WIDTH - 2 * depth
    }
}

/// The row of a process in the tree, at the given depth.
pub fn format_tree_row(entry: &ProcessSnapshotEntry, metadata: &ProcessMetadata, depth: usize) -> (line:
    String)
    ensures
        line@ == tree_row(entry@, metadata@, depth as nat),
{
    let mut line = String::new();
    push_tree_prefix(&mut line, depth);
    push_process_columns(&mut line, entry, metadata, tree_name_width(depth));
    assert(line@ =~= tree_row(entry@, metadata@, depth as nat));
    line
}

/// The row that stands for the synthetic root.
pub fn format_root_row(depth: usize) -> (line: String)
    ensures
        line@ == root_row(depth as nat),
{
    let mut line = String::new();
    push_tree_prefix(&mut line, depth);
    line.append("[Sistem] (PID: 0)");
    assert(line@ =~= root_row(depth as nat));
    line
}

fn heading_lines(snapshot: &Vec<ProcessSnapshotEntry>, name_width: usize) -> (lines: Vec<String>)
    ensures
        report_view(lines@) == heading(snapshot_view(snapshot@), name_width as nat),
{
    let sums = totals(snapshot);
    let mut lines: Vec<String> = Vec::new();
    lines.push(format_total_cpu(sums.cpu_hundredths));
    lines.push(format_total_memory(sums.memory_kb));
    lines.push(format_header(name_width));
    assert(report_view(lines@) =~= heading(snapshot_view(snapshot@), name_width as nat));
    lines
}

/// The flat list of a snapshot. Every process is first looked up in the
/// cache, with the status text that `reads` holds for it.
pub fn render_list(
    snapshot: &Vec<ProcessSnapshotEntry>,
    cache: &mut MetadataCache,
    reads: &Vec<StatusRead>,
) -> (lines: Vec<String>)
    ensures
        absorbed(old(cache)@, final(cache)@, snapshot_view(snapshot@), reads_view(reads@)),
        report_view(lines@) == list_lines(snapshot_view(snapshot@), final(cache)@),
{
    let ghost s = snapshot_view(snapshot@);
    cache.absorb(snapshot, reads);
    let mut lines = heading_lines(snapshot, LIST_NAME_WIDTH);
    let indices = first_occurrences(snapshot);
    let ghost rows = distinct(s).map_values(|e: EntryView| list_row(e, cache@[e.pid]));
    proof {
        lemma_first_indices_upto(s, s.len());
    }
    let mut k: usize = 0;
    while k < indices.len()
        invariant
            k <= indices.len(),
            s == snapshot_view(snapshot@),
            indices@.map_values(|i: usize| i as int) == first_indices(s),
            forall|j: int|
                0 <= j < first_indices(s).len() ==> 0 <= (#[trigger] first_indices(s)[j])
                    < s.len(),
            forall|pid: u32| has_pid(s, pid) ==> cache@.contains_key(pid),
            rows == distinct(s).map_values(|e: EntryView| list_row(e, cache@[e.pid])),
            report_view(lines@) == heading(s, LIST_NAME_WIDTH as nat) + rows.take(k as int),
        decreases indices.len() - k,
    {
        let i: usize = indices[k];
        proof {
            assert(indices@.map_values(|i: usize| i as int)[k as int] == i as int);
            assert(distinct(s)[k as int] == s[i as int]);
            assert(s[i as int] == snapshot@[i as int]@);
            assert(has_pid(s, s[i as int].pid));
        }
        let entry = &snapshot[i];
        let held: Option<&ProcessMetadata> = cache.get(entry.pid);
        let line = format_list_row(entry, held.unwrap());
        let ghost before = report_view(lines@);
        lines.push(line);
        proof {
            assert(rows[k as int] == line@);
            assert(report_view(lines@) =~= before.push(line@));
            assert(rows.take(k + 1) =~= rows.take(k as int).push(rows[k as int]));
            assert(report_view(lines@) =~= heading(s, LIST_NAME_WIDTH as nat) + rows.take(k + 1));
        }
        k += 1;
    }
    assert(rows.take(k as int) =~= rows);
    lines
}

/// The tree view of a snapshot. Every process is first looked up in the
/// cache, with the status text that `reads` holds for it; then the tree is
/// built and walked from the root.
pub fn render_tree(
    snapshot: &Vec<ProcessSnapshotEntry>,
    cache: &mut MetadataCache,
    reads: &Vec<StatusRead>,
) -> (lines: Vec<String>)
    ensures
        absorbed(old(cache)@, final(cache)@, snapshot_view(snapshot@), reads_view(reads@)),
        report_view(lines@) == tree_lines(snapshot_view(snapshot@), final(cache)@),
{
    let ghost s = snapshot_view(snapshot@);
    cache.absorb(snapshot, reads);
    let mut lines = heading_lines(snapshot, TREE_HEADER_NAME_WIDTH);
    let tree = ProcessTree::build(snapshot);
    let rows: Vec<TreeRow> = tree.walk(snapshot.len());
    let index = index_by_pid(snapshot);
    let ghost walked = rows_view(rows@);
    assert(walked == tree_rows(s));
    let mut k: usize = 0;
    while k < rows.len()
        invariant
            k <= rows.len(),
            s == snapshot_view(snapshot@),
            walked == rows_view(rows@),
            forall|pid: u32| index@.contains_key(pid) <==> has_pid(s, pid),
            forall|pid: u32|
                index@.contains_key(pid) ==> index@[pid] as int == first_with_pid(
                    s,
                    s.len() as int,
                    pid,
                ),
            forall|pid: u32| has_pid(s, pid) ==> cache@.contains_key(pid),
            report_view(lines@) == heading(s, TREE_HEADER_NAME_WIDTH as nat) + row_lines(
                s,
                cache@,
                walked.take(k as int),
            ),
        decreases rows.len() - k,
    {
        let row: TreeRow = rows[k];
        let ghost before = report_view(lines@);
        proof {
            assert(walked[k as int] == row@);
            assert(walked.take(k + 1).drop_last() =~= walked.take(k as int));
            assert(walked.take(k + 1).last() == row@);
        }
        match index.get(&row.pid) {
            Some(position) => {
                let i: usize = *position;
                proof {
                    assert(index@.contains_key(row.pid));
                    assert(has_pid(s, row.pid));
                    lemma_first_with_pid(s, s.len() as int, row.pid);
                    assert(s[i as int] == snapshot@[i as int]@);
                }
                let entry = &snapshot[i];
                let held: Option<&ProcessMetadata> = cache.get(row.pid);
                let line = format_tree_row(entry, held.unwrap(), row.depth);
                lines.push(line);
                assert(report_view(lines@) =~= before.push(line@));
            },
            None => {
                assert(!index@.contains_key(row.pid));
                assert(!has_pid(s, row.pid));
                if row.pid == ROOT_PID {
                    let line = format_root_row(row.depth);
                    lines.push(line);
                    assert(report_view(lines@) =~= before.push(line@));
                }
            },
        }
        assert(report_view(lines@) =~= heading(s, TREE_HEADER_NAME_WIDTH as nat) + row_lines(
            s,
            cache@,
            walked.take(k + 1),
        ));
        k += 1;
    }
    assert(walked.take(k as int) =~= walked);
    lines
}

/// The line of a row of the walk stands among the lines of the walk.
pub proof fn lemma_row_lines_hold_every_line(
    s: Seq<EntryView>,
    cache: Map<u32, MetadataView>,
    rows: Seq<RowView>,
    row: RowView,
)
    requires
        rows.contains(row),
        row_line(s, cache, row) is Some,
    ensures
        row_lines(s, cache, rows).contains(row_line(s, cache, row)->0),
    decreases rows.len(),
{
    let line = row_line(s, cache, row)->0;
    let now = row_lines(s, cache, rows);
    let before = row_lines(s, cache, rows.drop_last());
    if rows.last() == row {
        assert(now[now.len() - 1] == line);
    } else {
        let k = choose|k: int| 0 <= k < rows.len() && rows[k] == row;
        assert(rows.drop_last()[k] == row);
        lemma_row_lines_hold_every_line(s, cache, rows.drop_last(), row);
        let l = choose|l: int| 0 <= l < before.len() && before[l] == line;
        assert(now[l] == line);
    }
}

/// A process that the walk shows has its row in the tree view.
pub proof fn lemma_shown_process_has_its_row(
    s: Seq<EntryView>,
    cache: Map<u32, MetadataView>,
    row: RowView,
)
    requires
        tree_rows(s).contains(row),
        has_pid(s, row.pid),
    ensures
        tree_lines(s, cache).contains(
            tree_row(s[first_with_pid(s, s.len() as int, row.pid)], cache[row.pid], row.depth),
        ),
{
    lemma_row_lines_hold_every_line(s, cache, tree_rows(s), row);
    let rows = row_lines(s, cache, tree_rows(s));
    let line = tree_row(s[first_with_pid(s, s.len() as int, row.pid)], cache[row.pid], row.depth);
    let l = choose|l: int| 0 <= l < rows.len() && rows[l] == line;
    let head = heading(s, TREE_HEADER_NAME_WIDTH as nat);
    assert(tree_lines(s, cache)[head.len() + l] == line);
}

/// A process whose declared parent the snapshot does not hold is shown in
/// the tree view as a direct child of the synthetic root.
pub proof fn law_orphan_is_shown_under_root(
    s: Seq<EntryView>,
    cache: Map<u32, MetadataView>,
    i: int,
)
    requires
        is_first(s, i),
        s[i].pid != ROOT_PID,
        !has_pid(s, s[i].parent),
    ensures
        tree_lines(s, cache).contains(tree_row(s[i], cache[s[i].pid], 1)),
{
    law_orphan_hangs_under_root(s, i);
    lemma_first_entry_is_found(s, i);
    lemma_shown_process_has_its_row(s, cache, RowView { pid: s[i].pid, depth: 1 });
}

/// The tree view drops no process of a well-formed process table: one whose
/// chain of parents leads to the root has its row, indented by its level.
pub proof fn law_tree_view_shows_every_rooted_process(
    s: Seq<EntryView>,
    cache: Map<u32, MetadataView>,
    i: int,
)
    requires
        is_first(s, i),
        s[i].pid != ROOT_PID,
        level_of(s, s[i].pid, s.len()) is Some,
    ensures
        tree_lines(s, cache).contains(
            tree_row(s[i], cache[s[i].pid], level_of(s, s[i].pid, s.len())->0),
        ),
{
    lemma_first_entry_is_found(s, i);
    law_process_is_shown_at_its_level(s, s[i].pid);
    lemma_shown_process_has_its_row(
        s,
        cache,
        RowView { pid: s[i].pid, depth: level_of(s, s[i].pid, s.len())->0 },
    );
}

/// The flat list has one row for every pid of the snapshot, made of its
/// first entry.
pub proof fn law_list_shows_every_process(
    s: Seq<EntryView>,
    cache: Map<u32, MetadataView>,
    i: int,
)
    requires
        is_first(s, i),
    ensures
        list_lines(s, cache).contains(list_row(s[i], cache[s[i].pid])),
{
    lemma_first_indices_upto(s, s.len());
    let idx = first_indices(s);
    let k = choose|k: int| 0 <= k < idx.len() && idx[k] == i;
    let rows = distinct(s).map_values(|e: EntryView| list_row(e, cache[e.pid]));
    assert(rows[k] == list_row(s[i], cache[s[i].pid]));
    let head = heading(s, LIST_NAME_WIDTH as nat);
    assert(list_lines(s, cache)[head.len() + k] == list_row(s[i], cache[s[i].pid]));
}

} // verus!
