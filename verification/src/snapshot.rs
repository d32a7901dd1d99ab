//! One read of the process table, as plain values, and its deduplication
//! by process identifier.

use std::collections::HashMap;
use std::collections::HashSet;
use vstd::prelude::*;

verus! {

/// The identifier under which processes without a known parent are collected.
pub const ROOT_PID: u32 = 0;

/// What one snapshot says of one process.
#[derive(Debug)]
pub struct ProcessSnapshotEntry {
    /// Process identifier, unique among the live processes.
    pub pid: u32,
    /// Identifier of the parent process; 0 if none or unknown.
    pub parent: u32,
    /// CPU usage in hundredths of a percent; may exceed 100 % on several cores.
    pub cpu_hundredths: u64,
    /// Resident memory in kilobytes.
    pub memory_kb: u64,
    /// Display name.
    pub name: String,
    /// Path of the executable.
    pub exe_path: String,
}

/// The mathematical value of a snapshot entry.
pub struct EntryView {
    pub pid: u32,
    pub parent: u32,
    pub cpu_hundredths: u64,
    pub memory_kb: u64,
    pub name: Seq<char>,
    pub exe_path: Seq<char>,
}

impl View for ProcessSnapshotEntry {
    type V = EntryView;

    open spec fn view(&self) -> EntryView {
        EntryView {
            pid: self.pid,
            parent: self.parent,
            cpu_hundredths: self.cpu_hundredths,
            memory_kb: self.memory_kb,
            name: self.name@,
            exe_path: self.exe_path@,
        }
    }
}

impl Clone for ProcessSnapshotEntry {
    fn clone(&self) -> (copy: ProcessSnapshotEntry)
        ensures
            copy@ == self@,
    {
        ProcessSnapshotEntry {
            pid: self.pid,
            parent: self.parent,
            cpu_hundredths: self.cpu_hundredths,
            memory_kb: self.memory_kb,
            name: self.name.clone(),
            exe_path: self.exe_path.clone(),
        }
    }
}

impl ProcessSnapshotEntry {
    /// An entry made of its six parts.
    pub fn new(
        pid: u32,
        parent: u32,
        cpu_hundredths: u64,
        memory_kb: u64,
        name: String,
        exe_path: String,
    ) -> (entry: ProcessSnapshotEntry)
        ensures
            entry@ == (EntryView {
                pid,
                parent,
                cpu_hundredths,
                memory_kb,
                name: name@,
                exe_path: exe_path@,
            }),
    {
        ProcessSnapshotEntry { pid, parent, cpu_hundredths, memory_kb, name, exe_path }
    }
}

/// The mathematical value of a snapshot: its entries in snapshot order.
pub open spec fn snapshot_view(entries: Seq<ProcessSnapshotEntry>) -> Seq<EntryView> {
    entries.map_values(|e: ProcessSnapshotEntry| e@)
}

/// Some entry among the first `n` carries `pid`.
pub open spec fn pid_among(s: Seq<EntryView>, n: int, pid: u32) -> bool {
    exists|j: int| 0 <= j < n && j < s.len() && (#[trigger] s[j]).pid == pid
}

/// Some entry of the snapshot carries `pid`.
pub open spec fn has_pid(s: Seq<EntryView>, pid: u32) -> bool {
    pid_among(s, s.len() as int, pid)
}

/// Entry `i` is the first of the snapshot with its pid.
pub open spec fn is_first(s: Seq<EntryView>, i: int) -> bool {
    0 <= i < s.len() && !pid_among(s, i, s[i].pid)
}

/// The positions, in increasing order, of the entries among the first `n`
/// that are the first with their pid.
pub open spec fn first_indices_upto(s: Seq<EntryView>, n: nat) -> Seq<int>
    decreases n,
{
    if n == 0 {
        Seq::empty()
    } else {
        let before = first_indices_upto(s, (n - 1) as nat);
        if is_first(s, n - 1) {
            before.push(n - 1)
        } else {
            before
        }
    }
}

/// The positions of the first occurrences of every pid, in snapshot order.
pub open spec fn first_indices(s: Seq<EntryView>) -> Seq<int> {
    first_indices_upto(s, s.len())
}

/// The snapshot deduplicated by pid: of the entries that share a pid only
/// the first stays.
pub open spec fn distinct(s: Seq<EntryView>) -> Seq<EntryView> {
    first_indices(s).map_values(|i: int| s[i])
}

/// What `first_indices_upto` holds: exactly the first occurrences below `n`,
/// in increasing order.
pub proof fn lemma_first_indices_upto(s: Seq<EntryView>, n: nat)
    requires
        n <= s.len(),
    ensures
        first_indices_upto(s, n).len() <= n,
        forall|k: int|
            0 <= k < first_indices_upto(s, n).len() ==> 0 <= (#[trigger] first_indices_upto(
                s,
                n,
            )[k]) < n && is_first(s, first_indices_upto(s, n)[k]),
        forall|k: int, l: int|
            0 <= k < l < first_indices_upto(s, n).len() ==> (#[trigger] first_indices_upto(s, n)[k])
                < (#[trigger] first_indices_upto(s, n)[l]),
        forall|i: int|
            0 <= i < n && is_first(s, i) ==> first_indices_upto(s, n).contains(i),
    decreases n,
{
    if n > 0 {
        let before = first_indices_upto(s, (n - 1) as nat);
        lemma_first_indices_upto(s, (n - 1) as nat);
        let now = first_indices_upto(s, n);
        assert forall|i: int| 0 <= i < n && is_first(s, i) implies now.contains(i) by {
            if i < n - 1 {
                let k = choose|k: int| 0 <= k < before.len() && before[k] == i;
                assert(now[k] == i);
            } else {
                assert(now[now.len() - 1] == i);
            }
        }
    }
}

/// No two entries of the deduplicated snapshot share a pid.
pub proof fn law_distinct_has_no_duplicates(s: Seq<EntryView>)
    ensures
        forall|k: int, l: int|
            0 <= k < l < distinct(s).len() ==> (#[trigger] distinct(s)[k]).pid != (
            #[trigger] distinct(s)[l]).pid,
{
    lemma_first_indices_upto(s, s.len());
    let idx = first_indices(s);
    assert forall|k: int, l: int| 0 <= k < l < distinct(s).len() implies (#[trigger] distinct(
        s,
    )[k]).pid != (#[trigger] distinct(s)[l]).pid by {
        assert(idx[k] < idx[l]);
        assert(is_first(s, idx[l]));
        if s[idx[k]].pid == s[idx[l]].pid {
            assert(pid_among(s, idx[l], s[idx[l]].pid));
        }
    }
}

/// Deduplication loses no process: a pid occurs in the deduplicated
/// snapshot exactly if it occurs in the snapshot.
pub proof fn law_distinct_keeps_every_pid(s: Seq<EntryView>, pid: u32)
    ensures
        has_pid(distinct(s), pid) == has_pid(s, pid),
{
    lemma_first_indices_upto(s, s.len());
    let idx = first_indices(s);
    let d = distinct(s);
    if has_pid(s, pid) {
        lemma_first_with_pid(s, s.len() as int, pid);
        let i = first_with_pid(s, s.len() as int, pid);
        assert(is_first(s, i));
        let k = choose|k: int| 0 <= k < idx.len() && idx[k] == i;
        assert(d[k].pid == pid);
    }
    if has_pid(d, pid) {
        let k = choose|k: int| 0 <= k < d.len() && (#[trigger] d[k]).pid == pid;
        assert(s[idx[k]].pid == pid);
    }
}

/// The least position below `n` whose entry carries `pid`.
pub open spec fn first_with_pid(s: Seq<EntryView>, n: int, pid: u32) -> int
    decreases n,
{
    if n <= 0 {
        0
    } else if pid_among(s, n - 1, pid) {
        first_with_pid(s, n - 1, pid)
    } else {
        n - 1
    }
}

/// Where a pid occurs at all, `first_with_pid` is its first occurrence.
pub proof fn lemma_first_with_pid(s: Seq<EntryView>, n: int, pid: u32)
    requires
        n <= s.len(),
        pid_among(s, n, pid),
    ensures
        0 <= first_with_pid(s, n, pid) < n,
        s[first_with_pid(s, n, pid)].pid == pid,
        is_first(s, first_with_pid(s, n, pid)),
    decreases n,
{
    if n > 0 && pid_among(s, n - 1, pid) {
        lemma_first_with_pid(s, n - 1, pid);
    } else {
        let j = choose|j: int| 0 <= j < n && j < s.len() && (#[trigger] s[j]).pid == pid;
        if j < n - 1 {
            assert(pid_among(s, n - 1, pid));
        }
    }
}

/// The positions of the entries that are the first with their pid.
pub fn first_occurrences(snapshot: &Vec<ProcessSnapshotEntry>) -> (indices: Vec<usize>)
    ensures
        indices@.map_values(|i: usize| i as int) == first_indices(snapshot_view(snapshot@)),
{
    let ghost s = snapshot_view(snapshot@);
    let mut seen: HashSet<u32> = HashSet::new();
    let mut indices: Vec<usize> = Vec::new();
    let mut i: usize = 0;
    while i < snapshot.len()
        invariant
            i <= snapshot.len(),
            s == snapshot_view(snapshot@),
            forall|pid: u32| seen@.contains(pid) == pid_among(s, i as int, pid),
            indices@.map_values(|i: usize| i as int) == first_indices_upto(s, i as nat),
        decreases snapshot.len() - i,
    {
        let pid: u32 = snapshot[i].pid;
        let fresh: bool = seen.insert(pid);
        proof {
            assert(s[i as int].pid == pid);
            assert(fresh == is_first(s, i as int));
            lemma_pid_among_step(s, i as int);
        }
        if fresh {
            let ghost before = indices@;
            indices.push(i);
            assert(indices@.map_values(|i: usize| i as int) =~= before.map_values(
                |i: usize| i as int,
            ).push(i as int));
        }
        i += 1;
    }
    indices
}

/// The first entry with a pid is where `first_with_pid` finds that pid.
pub proof fn lemma_first_entry_is_found(s: Seq<EntryView>, i: int)
    requires
        is_first(s, i),
    ensures
        has_pid(s, s[i].pid),
        first_with_pid(s, s.len() as int, s[i].pid) == i,
{
    assert(pid_among(s, s.len() as int, s[i].pid));
    lemma_first_with_pid(s, s.len() as int, s[i].pid);
    let f = first_with_pid(s, s.len() as int, s[i].pid);
    if f < i {
        assert(pid_among(s, i, s[i].pid));
    }
    if i < f {
        assert(pid_among(s, f, s[f].pid));
    }
}

/// How `pid_among` grows by one entry.
pub proof fn lemma_pid_among_step(s: Seq<EntryView>, i: int)
    requires
        0 <= i < s.len(),
    ensures
        forall|pid: u32|
            #[trigger] pid_among(s, i + 1, pid) == (pid_among(s, i, pid) || s[i].pid == pid),
{
    assert forall|pid: u32|
        #[trigger] pid_among(s, i + 1, pid) == (pid_among(s, i, pid) || s[i].pid == pid) by {
        if pid_among(s, i + 1, pid) {
            let j = choose|j: int| 0 <= j < i + 1 && j < s.len() && (#[trigger] s[j]).pid == pid;
            if j < i {
                assert(pid_among(s, i, pid));
            }
        }
        if pid_among(s, i, pid) {
            let j = choose|j: int| 0 <= j < i && j < s.len() && (#[trigger] s[j]).pid == pid;
            assert(0 <= j < i + 1 && s[j].pid == pid);
        }
        if s[i].pid == pid {
            assert(0 <= i < i + 1 && s[i].pid == pid);
        }
    }
}

/// For every pid of the snapshot, the position of its first entry.
pub fn index_by_pid(snapshot: &Vec<ProcessSnapshotEntry>) -> (index: HashMap<u32, usize>)
    ensures
        forall|pid: u32|
            index@.contains_key(pid) <==> has_pid(snapshot_view(snapshot@), pid),
        forall|pid: u32|
            index@.contains_key(pid) ==> index@[pid] as int == first_with_pid(
                snapshot_view(snapshot@),
                snapshot@.len() as int,
                pid,
            ),
{
    let ghost s = snapshot_view(snapshot@);
    let mut index: HashMap<u32, usize> = HashMap::new();
    let mut i: usize = 0;
    while i < snapshot.len()
        invariant
            i <= snapshot.len(),
            s == snapshot_view(snapshot@),
            forall|pid: u32| index@.contains_key(pid) <==> pid_among(s, i as int, pid),
            forall|pid: u32|
                index@.contains_key(pid) ==> index@[pid] as int == first_with_pid(s, i as int, pid),
        decreases snapshot.len() - i,
    {
        let pid: u32 = snapshot[i].pid;
        let ghost before = index@;
        proof {
            assert(s[i as int].pid == pid);
            lemma_pid_among_step(s, i as int);
        }
        if !index.contains_key(&pid) {
            index.insert(pid, i);
        }
        proof {
            assert forall|p: u32| index@.contains_key(p) implies index@[p] as int
                == first_with_pid(s, i + 1, p) by {
                if before.contains_key(p) {
                    assert(pid_among(s, i as int, p));
                    assert(index@[p] == before[p]);
                }
            }
        }
        i += 1;
    }
    index
}

} // verus!
