//! Per-process metadata, computed once per pid and kept.

use crate::owner::{candidate_uids, owner_or_placeholder, owner_text, resolve_owner, unknown_owner};
use crate::snapshot::{
    first_with_pid, is_first, lemma_pid_among_step, pid_among, snapshot_view, EntryView,
    ProcessSnapshotEntry,
};
use std::collections::HashMap;
use std::collections::HashSet;
use vstd::prelude::*;

verus! {

/// The slow-changing attributes of a process.
#[derive(Debug)]
pub struct ProcessMetadata {
    /// Display name.
    pub name: String,
    /// Path of the executable.
    pub exe_path: String,
    /// Name of the owning account, or the placeholder.
    pub owner: String,
}

/// The mathematical value of a process's metadata.
pub struct MetadataView {
    pub name: Seq<char>,
    pub exe_path: Seq<char>,
    pub owner: Seq<char>,
}

impl View for ProcessMetadata {
    type V = MetadataView;

    open spec fn view(&self) -> MetadataView {
        MetadataView { name: self.name@, exe_path: self.exe_path@, owner: self.owner@ }
    }
}

/// The metadata of a process: name and executable as its snapshot entry gives
/// them, the owner as resolved, or the placeholder.
pub open spec fn metadata_of(entry: EntryView, found: Option<Seq<char>>) -> MetadataView {
    MetadataView { name: entry.name, exe_path: entry.exe_path, owner: owner_text(found) }
}

impl Clone for ProcessMetadata {
    fn clone(&self) -> (copy: ProcessMetadata)
        ensures
            copy@ == self@,
    {
        ProcessMetadata {
            name: self.name.clone(),
            exe_path: self.exe_path.clone(),
            owner: self.owner.clone(),
        }
    }
}

impl ProcessMetadata {
    /// The metadata of the process of `entry`, whose owner resolved to `found`.
    pub fn from_entry(entry: &ProcessSnapshotEntry, found: Option<String>) -> (metadata:
        ProcessMetadata)
        ensures
            metadata@ == metadata_of(
                entry@,
                match found {
                    Some(name) => Some(name@),
                    None => None,
                },
            ),
    {
        ProcessMetadata {
            name: entry.name.clone(),
            exe_path: entry.exe_path.clone(),
            owner: owner_or_placeholder(found),
        }
    }
}

/// The cache after a lookup of `pid` that would compute `computed` on a
/// miss: an entry that is there stays as it is.
pub open spec fn with_entry(
    cache: Map<u32, MetadataView>,
    pid: u32,
    computed: MetadataView,
) -> Map<u32, MetadataView> {
    if cache.contains_key(pid) {
        cache
    } else {
        cache.insert(pid, computed)
    }
}

/// Metadata by pid. An entry, once made, is never changed nor removed.
pub struct MetadataCache {
    entries: HashMap<u32, ProcessMetadata>,
}

impl View for MetadataCache {
    type V = Map<u32, MetadataView>;

    closed spec fn view(&self) -> Map<u32, MetadataView> {
        self.entries@.map_values(|m: ProcessMetadata| m@)
    }
}

impl MetadataCache {
    /// An empty cache.
    pub fn new() -> (cache: MetadataCache)
        ensures
            cache@ == Map::<u32, MetadataView>::empty(),
    {
        let cache = MetadataCache { entries: HashMap::new() };
        assert(cache@ =~= Map::<u32, MetadataView>::empty());
        cache
    }

    /// Whether the cache holds metadata for `pid`.
    pub fn contains(&self, pid: u32) -> (held: bool)
        ensures
            held == self@.contains_key(pid),
    {
        self.entries.contains_key(&pid)
    }

    /// The metadata held for `pid`.
    pub fn get(&self, pid: u32) -> (found: Option<&ProcessMetadata>)
        ensures
            match found {
                Some(metadata) => self@.contains_key(pid) && metadata@ == self@[pid],
                None => !self@.contains_key(pid),
            },
    {
        self.entries.get(&pid)
    }

    /// Looks `pid` up and, on a miss, stores `computed` for it. Returns what
    /// the cache then holds for `pid`.
    pub fn get_or_insert(&mut self, pid: u32, computed: ProcessMetadata) -> (metadata:
        ProcessMetadata)
        ensures
            final(self)@ == with_entry(old(self)@, pid, computed@),
            metadata@ == final(self)@[pid],
    {
        if !self.entries.contains_key(&pid) {
            self.entries.insert(pid, computed);
            assert(self@ =~= old(self)@.insert(pid, computed@));
        }
        let held: Option<&ProcessMetadata> = self.entries.get(&pid);
        held.unwrap().clone()
    }

    /// Looks `pid` up. On a hit the held metadata is returned as it is and
    /// nothing is resolved. On a miss the metadata is made of the name and
    /// executable of `entry` and of the owner that `status`, the process's
    /// status text if it could be read, resolves to; it is stored and returned.
    pub fn get_or_compute(
        &mut self,
        pid: u32,
        entry: &ProcessSnapshotEntry,
        status: Option<&[u8]>,
    ) -> (metadata: ProcessMetadata)
        ensures
            final(self)@ == with_entry(old(self)@, pid, metadata@),
            metadata@ == final(self)@[pid],
            !old(self)@.contains_key(pid) ==> computed_from(metadata@, entry@, status_text(status)),
    {
        match self.entries.get(&pid) {
            Some(held) => {
                return held.clone();
            },
            None => {},
        }
        let found: Option<String> = match status {
            Some(text) => resolve_owner(text),
            None => None,
        };
        let computed = ProcessMetadata::from_entry(entry, found);
        self.get_or_insert(pid, computed)
    }
}

/// The bytes of a status text that could be read.
pub open spec fn status_text(status: Option<&[u8]>) -> Option<Seq<u8>> {
    match status {
        Some(text) => Some(text@),
        None => None,
    }
}

/// `metadata` is what a miss computes for `entry` and this status text: name
/// and executable are those of the entry; the owner is the placeholder where
/// the text is missing or names no user id, and otherwise as the user
/// database answered.
pub open spec fn computed_from(
    metadata: MetadataView,
    entry: EntryView,
    status: Option<Seq<u8>>,
) -> bool {
    &&& metadata.name == entry.name
    &&& metadata.exe_path == entry.exe_path
    &&& (status is None || candidate_uids(status->0).len() == 0) ==> metadata.owner
        == unknown_owner()
}

/// A second lookup of a pid is a hit: it leaves the cache as the first
/// lookup left it and finds what the first one found, whatever it would
/// have computed.
pub proof fn law_lookup_is_idempotent(
    cache: Map<u32, MetadataView>,
    pid: u32,
    first: MetadataView,
    second: MetadataView,
)
    ensures
        with_entry(cache, pid, first).contains_key(pid),
        with_entry(with_entry(cache, pid, first), pid, second) == with_entry(cache, pid, first),
        with_entry(with_entry(cache, pid, first), pid, second)[pid] == with_entry(
            cache,
            pid,
            first,
        )[pid],
{
}

/// A lookup never changes nor removes what the cache holds for any pid.
pub proof fn law_entries_are_never_changed(
    cache: Map<u32, MetadataView>,
    pid: u32,
    computed: MetadataView,
    held: u32,
)
    requires
        cache.contains_key(held),
    ensures
        with_entry(cache, pid, computed).contains_key(held),
        with_entry(cache, pid, computed)[held] == cache[held],
{
}

/// The status text of one process, as far as it could be read.
#[derive(Debug)]
pub struct StatusRead {
    /// The process that the text belongs to.
    pub pid: u32,
    /// The text; `None` where the process is gone or the text is unreadable.
    pub content: Option<Vec<u8>>,
}

/// The mathematical value of a status read.
pub struct StatusReadView {
    pub pid: u32,
    pub content: Option<Seq<u8>>,
}

impl View for StatusRead {
    type V = StatusReadView;

    open spec fn view(&self) -> StatusReadView {
        StatusReadView {
            pid: self.pid,
            content: match self.content {
                Some(text) => Some(text@),
                None => None,
            },
        }
    }
}

/// The status reads as mathematical values.
pub open spec fn reads_view(reads: Seq<StatusRead>) -> Seq<StatusReadView> {
    reads.map_values(|r: StatusRead| r@)
}

/// The text of the first read for `pid` at or after position `from`;
/// nothing where there is no such read.
pub open spec fn status_from(reads: Seq<StatusReadView>, pid: u32, from: int) -> Option<Seq<u8>>
    decreases reads.len() - from,
{
    if from < 0 || from >= reads.len() {
        None
    } else if reads[from].pid == pid {
        reads[from].content
    } else {
        status_from(reads, pid, from + 1)
    }
}

/// The status text that the reads hold for `pid`.
pub open spec fn status_for(reads: Seq<StatusReadView>, pid: u32) -> Option<Seq<u8>> {
    status_from(reads, pid, 0)
}

/// The status text that the reads hold for `pid`.
pub fn find_status(reads: &Vec<StatusRead>, pid: u32) -> (status: Option<&[u8]>)
    ensures
        status_text(status) == status_for(reads_view(reads@), pid),
{
    let ghost rv = reads_view(reads@);
    let mut k: usize = 0;
    while k < reads.len()
        invariant
            k <= reads.len(),
            rv == reads_view(reads@),
            status_from(rv, pid, k as int) == status_for(rv, pid),
        decreases reads.len() - k,
    {
        assert(rv[k as int] == reads@[k as int]@);
        if reads[k].pid == pid {
            return match &reads[k].content {
                Some(text) => Some(text.as_slice()),
                None => None,
            };
        }
        k += 1;
    }
    None
}

/// The pids among the first `n` entries whose metadata is yet to be
/// resolved: those that the cache does not hold, each once, in snapshot order.
pub open spec fn pending_upto(cache: Map<u32, MetadataView>, s: Seq<EntryView>, n: nat) -> Seq<u32>
    decreases n,
{
    if n == 0 {
        Seq::empty()
    } else {
        let before = pending_upto(cache, s, (n - 1) as nat);
        if is_first(s, n - 1) && !cache.contains_key(s[n - 1].pid) {
            before.push(s[n - 1].pid)
        } else {
            before
        }
    }
}

/// The pids of a snapshot whose metadata is yet to be resolved.
pub open spec fn pending(cache: Map<u32, MetadataView>, s: Seq<EntryView>) -> Seq<u32> {
    pending_upto(cache, s, s.len())
}

/// `new` is `old` after the first `n` entries of a snapshot have been looked
/// up, each with the status text that `reads` holds for it.
pub open spec fn absorbed_upto(
    old: Map<u32, MetadataView>,
    new: Map<u32, MetadataView>,
    s: Seq<EntryView>,
    reads: Seq<StatusReadView>,
    n: int,
) -> bool {
    &&& forall|p: u32| #[trigger]
        new.contains_key(p) <==> old.contains_key(p) || pid_among(s, n, p)
    &&& forall|p: u32| old.contains_key(p) ==> #[trigger] new[p] == old[p]
    &&& forall|p: u32|
        !old.contains_key(p) && pid_among(s, n, p) ==> computed_from(
            #[trigger] new[p],
            s[first_with_pid(s, n, p)],
            status_for(reads, p),
        )
}

/// `new` is `old` after every process of a snapshot has been looked up:
/// what was held is unchanged, and every other pid of the snapshot has the
/// metadata computed from its first entry.
pub open spec fn absorbed(
    old: Map<u32, MetadataView>,
    new: Map<u32, MetadataView>,
    s: Seq<EntryView>,
    reads: Seq<StatusReadView>,
) -> bool {
    absorbed_upto(old, new, s, reads, s.len() as int)
}

impl MetadataCache {
    /// The pids of the snapshot for which a lookup would miss, each once, in
    /// snapshot order: the processes whose status text is worth reading.
    pub fn pending_lookups(&self, snapshot: &Vec<ProcessSnapshotEntry>) -> (pids: Vec<u32>)
        ensures
            pids@ == pending(self@, snapshot_view(snapshot@)),
    {
        let ghost s = snapshot_view(snapshot@);
        let mut seen: HashSet<u32> = HashSet::new();
        let mut pids: Vec<u32> = Vec::new();
        let mut i: usize = 0;
        while i < snapshot.len()
            invariant
                i <= snapshot.len(),
                s == snapshot_view(snapshot@),
                forall|p: u32| seen@.contains(p) == pid_among(s, i as int, p),
                pids@ == pending_upto(self@, s, i as nat),
            decreases snapshot.len() - i,
        {
            let pid: u32 = snapshot[i].pid;
            let fresh: bool = seen.insert(pid);
            proof {
                assert(s[i as int].pid == pid);
                assert(fresh == is_first(s, i as int));
                lemma_pid_among_step(s, i as int);
            }
            if fresh && !self.contains(pid) {
                pids.push(pid);
            }
            i += 1;
        }
        pids
    }

    /// Looks every process of the snapshot up, in snapshot order, each with
    /// the status text that `reads` holds for it. Afterwards the cache holds
    /// metadata for every pid of the snapshot.
    pub fn absorb(&mut self, snapshot: &Vec<ProcessSnapshotEntry>, reads: &Vec<StatusRead>)
        ensures
            absorbed(old(self)@, final(self)@, snapshot_view(snapshot@), reads_view(reads@)),
    {
        let ghost s = snapshot_view(snapshot@);
        let ghost rv = reads_view(reads@);
        let mut i: usize = 0;
        while i < snapshot.len()
            invariant
                i <= snapshot.len(),
                s == snapshot_view(snapshot@),
                rv == reads_view(reads@),
                absorbed_upto(old(self)@, self@, s, rv, i as int),
            decreases snapshot.len() - i,
        {
            let entry = &snapshot[i];
            let pid: u32 = entry.pid;
            let ghost before = self@;
            proof {
                assert(s[i as int] == entry@);
                lemma_pid_among_step(s, i as int);
            }
            if !self.contains(pid) {
                let status = find_status(reads, pid);
                let _ = self.get_or_compute(pid, entry, status);
                proof {
                    assert(!pid_among(s, i as int, pid));
                    assert(first_with_pid(s, i + 1, pid) == i);
                }
            }
            proof {
                let now = self@;
                assert forall|p: u32| #[trigger]
                    now.contains_key(p) <==> old(self)@.contains_key(p) || pid_among(
                        s,
                        i + 1,
                        p,
                    ) by {
                    assert(before.contains_key(p) <==> old(self)@.contains_key(p) || pid_among(
                        s,
                        i as int,
                        p,
                    ));
                }
                assert forall|p: u32| old(self)@.contains_key(p) implies #[trigger] now[p] == old(
                    self,
                )@[p] by {
                    assert(before[p] == old(self)@[p]);
                }
                assert forall|p: u32|
                    !old(self)@.contains_key(p) && pid_among(s, i + 1, p) implies computed_from(
                        #[trigger] now[p],
                        s[first_with_pid(s, i + 1, p)],
                        status_for(rv, p),
                    ) by {
                    if pid_among(s, i as int, p) {
                        assert(first_with_pid(s, i + 1, p) == first_with_pid(s, i as int, p));
                        assert(before.contains_key(p));
                        assert(computed_from(
                            before[p],
                            s[first_with_pid(s, i as int, p)],
                            status_for(rv, p),
                        ));
                        assert(now[p] == before[p]);
                    } else {
                        assert(p == pid);
                        assert(!before.contains_key(p));
                    }
                }
            }
            i += 1;
        }
    }
}

proof fn lemma_nothing_pending_when_all_held(
    cache: Map<u32, MetadataView>,
    s: Seq<EntryView>,
    n: nat,
)
    requires
        n <= s.len(),
        forall|i: int| 0 <= i < n ==> cache.contains_key(#[trigger] s[i].pid),
    ensures
        pending_upto(cache, s, n) == Seq::<u32>::empty(),
    decreases n,
{
    if n > 0 {
        lemma_nothing_pending_when_all_held(cache, s, (n - 1) as nat);
    }
}

/// Once a snapshot has been looked up, none of its processes is resolved
/// again: a second pass over it finds every pid held.
pub proof fn law_nothing_is_resolved_twice(
    old: Map<u32, MetadataView>,
    new: Map<u32, MetadataView>,
    s: Seq<EntryView>,
    reads: Seq<StatusReadView>,
)
    requires
        absorbed(old, new, s, reads),
    ensures
        pending(new, s) == Seq::<u32>::empty(),
{
    assert forall|i: int| 0 <= i < s.len() implies new.contains_key(#[trigger] s[i].pid) by {
        assert(pid_among(s, s.len() as int, s[i].pid));
    }
    lemma_nothing_pending_when_all_held(new, s, s.len());
}

/// Only pids that the cache does not hold are resolved, and each of them once.
pub proof fn law_only_misses_are_resolved(cache: Map<u32, MetadataView>, s: Seq<EntryView>, n: nat)
    requires
        n <= s.len(),
    ensures
        forall|k: int|
            0 <= k < pending_upto(cache, s, n).len() ==> !cache.contains_key(
                #[trigger] pending_upto(cache, s, n)[k],
            ) && pid_among(s, n as int, pending_upto(cache, s, n)[k]),
        forall|k: int, l: int|
            0 <= k < l < pending_upto(cache, s, n).len() ==> #[trigger] pending_upto(cache, s, n)[k]
                != #[trigger] pending_upto(cache, s, n)[l],
    decreases n,
{
    if n > 0 {
        law_only_misses_are_resolved(cache, s, (n - 1) as nat);
        lemma_pid_among_step(s, n - 1);
        let before = pending_upto(cache, s, (n - 1) as nat);
        let now = pending_upto(cache, s, n);
        assert forall|k: int| 0 <= k < now.len() implies !cache.contains_key(#[trigger] now[k])
            && pid_among(s, n as int, now[k]) by {
            if k < before.len() {
                assert(pid_among(s, n - 1, before[k]));
            }
        }
        assert forall|k: int, l: int| 0 <= k < l < now.len() implies #[trigger] now[k]
            != #[trigger] now[l] by {
            if l >= before.len() {
                assert(pid_among(s, n - 1, before[k]));
            }
        }
    }
}

} // verus!
