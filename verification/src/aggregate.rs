//! System-wide totals over the deduplicated snapshot.

use crate::snapshot::{
    distinct, first_indices, first_indices_upto, first_occurrences, has_pid, is_first,
    lemma_first_indices_upto, pid_among, snapshot_view, EntryView, ProcessSnapshotEntry,
};
use vstd::prelude::*;

verus! {

/// CPU usage and memory summed over the processes of a snapshot.
#[derive(Clone, Copy, Debug)]
pub struct Totals {
    /// Sum of the CPU usages, in hundredths of a percent; not capped at 100 %.
    pub cpu_hundredths: u128,
    /// Sum of the resident memory, in kilobytes.
    pub memory_kb: u128,
}

/// Sum of the CPU usage of the entries of `s`.
pub open spec fn sum_cpu(s: Seq<EntryView>) -> nat
    decreases s.len(),
{
    if s.len() == 0 {
        0
    } else {
        sum_cpu(s.drop_last()) + s.last().cpu_hundredths as nat
    }
}

/// Sum of the resident memory of the entries of `s`.
pub open spec fn sum_memory(s: Seq<EntryView>) -> nat
    decreases s.len(),
{
    if s.len() == 0 {
        0
    } else {
        sum_memory(s.drop_last()) + s.last().memory_kb as nat
    }
}

/// Total CPU usage of a snapshot: every pid counts once, with its first entry.
pub open spec fn total_cpu(s: Seq<EntryView>) -> nat {
    sum_cpu(distinct(s))
}

/// Total resident memory of a snapshot: every pid counts once, with its first entry.
pub open spec fn total_memory(s: Seq<EntryView>) -> nat {
    sum_memory(distinct(s))
}

proof fn lemma_sums_bounded(s: Seq<EntryView>)
    ensures
        sum_cpu(s) <= s.len() * u64::MAX,
        sum_memory(s) <= s.len() * u64::MAX,
    decreases s.len(),
{
    if s.len() > 0 {
        lemma_sums_bounded(s.drop_last());
        assert((s.len() - 1) * u64::MAX + u64::MAX == s.len() * u64::MAX) by (nonlinear_arith);
    }
}

/// The totals of a snapshot.
pub fn totals(snapshot: &Vec<ProcessSnapshotEntry>) -> (t: Totals)
    ensures
        t.cpu_hundredths == total_cpu(snapshot_view(snapshot@)),
        t.memory_kb == total_memory(snapshot_view(snapshot@)),
{
    let ghost s = snapshot_view(snapshot@);
    let ghost d = distinct(s);
    let indices = first_occurrences(snapshot);
    proof {
        lemma_first_indices_upto(s, s.len());
    }
    let mut cpu: u128 = 0;
    let mut memory: u128 = 0;
    let mut k: usize = 0;
    while k < indices.len()
        invariant
            k <= indices.len(),
            s == snapshot_view(snapshot@),
            d == distinct(s),
            indices@.map_values(|i: usize| i as int) == first_indices(s),
            forall|j: int|
                0 <= j < first_indices(s).len() ==> 0 <= (#[trigger] first_indices(s)[j])
                    < s.len(),
            cpu == sum_cpu(d.take(k as int)),
            memory == sum_memory(d.take(k as int)),
        decreases indices.len() - k,
    {
        let i: usize = indices[k];
        proof {
            assert(indices@.map_values(|i: usize| i as int)[k as int] == i as int);
            assert(d.len() == indices.len());
            assert(d[k as int] == s[i as int]);
            assert(d.take(k + 1).drop_last() =~= d.take(k as int));
            lemma_sums_bounded(d.take(k as int));
            assert(k * u64::MAX + u64::MAX <= usize::MAX * u64::MAX) by (nonlinear_arith)
                requires
                    k < usize::MAX,
            ;
            assert(usize::MAX * u64::MAX <= u64::MAX * u64::MAX) by (nonlinear_arith);
        }
        let entry = &snapshot[i];
        cpu = cpu + entry.cpu_hundredths as u128;
        memory = memory + entry.memory_kb as u128;
        k += 1;
    }
    assert(d.take(k as int) =~= d);
    Totals { cpu_hundredths: cpu, memory_kb: memory }
}

proof fn lemma_first_indices_of_push(s: Seq<EntryView>, e: EntryView, n: nat)
    requires
        n <= s.len(),
    ensures
        first_indices_upto(s.push(e), n) == first_indices_upto(s, n),
    decreases n,
{
    if n > 0 {
        lemma_first_indices_of_push(s, e, (n - 1) as nat);
        let t = s.push(e);
        assert(t[n - 1] == s[n - 1]);
        if pid_among(s, n - 1, s[n - 1].pid) {
            let j = choose|j: int| 0 <= j < n - 1 && j < s.len() && (#[trigger] s[j]).pid == s[n - 1].pid;
            assert(t[j].pid == t[n - 1].pid);
        }
        if pid_among(t, n - 1, t[n - 1].pid) {
            let j = choose|j: int| 0 <= j < n - 1 && j < t.len() && (#[trigger] t[j]).pid == t[n - 1].pid;
            assert(s[j].pid == s[n - 1].pid);
        }
    }
}

/// An entry whose pid the snapshot already holds adds nothing to the totals.
pub proof fn law_duplicate_pid_is_not_counted_twice(s: Seq<EntryView>, e: EntryView)
    requires
        has_pid(s, e.pid),
    ensures
        distinct(s.push(e)) == distinct(s),
        total_cpu(s.push(e)) == total_cpu(s),
        total_memory(s.push(e)) == total_memory(s),
{
    let t = s.push(e);
    lemma_first_indices_of_push(s, e, s.len());
    lemma_first_indices_upto(s, s.len());
    let j = choose|j: int| 0 <= j < s.len() && j < s.len() && (#[trigger] s[j]).pid == e.pid;
    assert(t[j].pid == t[s.len() as int].pid);
    assert(pid_among(t, s.len() as int, t[s.len() as int].pid));
    assert(first_indices(t) == first_indices(s));
    assert(distinct(t) =~= distinct(s));
}

/// An entry with a pid that the snapshot does not hold yet adds its own
/// usage to the totals.
pub proof fn law_new_pid_is_counted_once(s: Seq<EntryView>, e: EntryView)
    requires
        !has_pid(s, e.pid),
    ensures
        distinct(s.push(e)) == distinct(s).push(e),
        total_cpu(s.push(e)) == total_cpu(s) + e.cpu_hundredths,
        total_memory(s.push(e)) == total_memory(s) + e.memory_kb,
{
    let t = s.push(e);
    lemma_first_indices_of_push(s, e, s.len());
    lemma_first_indices_upto(s, s.len());
    if pid_among(t, s.len() as int, t[s.len() as int].pid) {
        let j = choose|j: int| 0 <= j < s.len() && j < t.len() && (#[trigger] t[j]).pid == e.pid;
        assert(s[j].pid == e.pid);
    }
    assert(is_first(t, s.len() as int));
    assert(first_indices(t) == first_indices(s).push(s.len() as int));
    assert(distinct(t) =~= distinct(s).push(e));
    assert(distinct(t).drop_last() =~= distinct(s));
}

/// The totals of a snapshot are those of its deduplicated form: where no pid
/// repeats, every entry counts.
pub proof fn law_totals_sum_every_entry_without_duplicates(s: Seq<EntryView>)
    requires
        forall|i: int, j: int| 0 <= i < j < s.len() ==> (#[trigger] s[i]).pid != (#[trigger] s[j]).pid,
    ensures
        distinct(s) == s,
        total_cpu(s) == sum_cpu(s),
        total_memory(s) == sum_memory(s),
    decreases s.len(),
{
    if s.len() == 0 {
        assert(distinct(s) =~= s);
    } else {
        let r = s.drop_last();
        let e = s.last();
        law_totals_sum_every_entry_without_duplicates(r);
        assert(r.push(e) =~= s);
        if has_pid(r, e.pid) {
            let j = choose|j: int| 0 <= j < r.len() && j < r.len() && (#[trigger] r[j]).pid == e.pid;
            assert(s[j].pid == s[s.len() - 1].pid);
        }
        law_new_pid_is_counted_once(r, e);
    }
}

} // verus!
