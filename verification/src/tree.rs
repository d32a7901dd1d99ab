//! The parent/child tree of a snapshot and its depth-first walk.

use crate::snapshot::{
    first_with_pid, has_pid, is_first, lemma_first_with_pid, lemma_pid_among_step, pid_among,
    snapshot_view, EntryView, ProcessSnapshotEntry, ROOT_PID,
};
use std::collections::HashMap;
use std::collections::HashSet;
use vstd::prelude::*;

verus! {

/// The pid under which entry `i` hangs: its declared parent where the
/// snapshot holds that process, the synthetic root where it does not.
pub open spec fn effective_parent(s: Seq<EntryView>, i: int) -> u32 {
    if has_pid(s, s[i].parent) {
        s[i].parent
    } else {
        ROOT_PID
    }
}

/// Entry `i` is listed among the children of `parent`: it is the first entry
/// with its pid, it is not the root itself, and it hangs under `parent`.
pub open spec fn is_child(s: Seq<EntryView>, i: int, parent: u32) -> bool {
    is_first(s, i) && s[i].pid != ROOT_PID && effective_parent(s, i) == parent
}

/// The children of `parent` among the first `n` entries, in snapshot order.
pub open spec fn children_upto(s: Seq<EntryView>, parent: u32, n: nat) -> Seq<u32>
    decreases n,
{
    if n == 0 {
        Seq::empty()
    } else {
        let before = children_upto(s, parent, (n - 1) as nat);
        if is_child(s, n - 1, parent) {
            before.push(s[n - 1].pid)
        } else {
            before
        }
    }
}

/// The children of `parent`, in snapshot order.
pub open spec fn children_of(s: Seq<EntryView>, parent: u32) -> Seq<u32> {
    children_upto(s, parent, s.len())
}

/// The tree of a snapshot: every pid that has children, with their list.
pub open spec fn tree_of(s: Seq<EntryView>) -> Map<u32, Seq<u32>> {
    Map::new(|p: u32| children_of(s, p).len() > 0, |p: u32| children_of(s, p))
}

/// The children that `tree` lists under `pid`; none where it lists nothing.
pub open spec fn kids(tree: Map<u32, Seq<u32>>, pid: u32) -> Seq<u32> {
    if tree.contains_key(pid) {
        tree[pid]
    } else {
        Seq::empty()
    }
}

/// One step of the walk: a process and how deep it stands below the root.
#[derive(Clone, Copy, Debug, PartialEq, Eq)]
pub struct TreeRow {
    pub pid: u32,
    pub depth: usize,
}

/// The mathematical value of a row.
pub struct RowView {
    pub pid: u32,
    pub depth: nat,
}

impl View for TreeRow {
    type V = RowView;

    open spec fn view(&self) -> RowView {
        RowView { pid: self.pid, depth: self.depth as nat }
    }
}

/// The rows as mathematical values.
pub open spec fn rows_view(rows: Seq<TreeRow>) -> Seq<RowView> {
    rows.map_values(|r: TreeRow| r@)
}

/// Depth-first pre-order walk of the subtree of `pid`, which stands at
/// `depth`; it descends at most `below` levels further.
pub open spec fn walk(tree: Map<u32, Seq<u32>>, pid: u32, depth: nat, below: nat) -> Seq<RowView>
    decreases below, 0nat,
{
    if below == 0 {
        seq![RowView { pid, depth }]
    } else {
        seq![RowView { pid, depth }] + walk_each(
            tree,
            kids(tree, pid),
            depth + 1,
            (below - 1) as nat,
        )
    }
}

/// The walks of the subtrees of `pids`, one after the other.
pub open spec fn walk_each(
    tree: Map<u32, Seq<u32>>,
    pids: Seq<u32>,
    depth: nat,
    below: nat,
) -> Seq<RowView>
    decreases below, pids.len() + 1,
{
    if pids.len() == 0 {
        Seq::empty()
    } else {
        walk_each(tree, pids.drop_last(), depth, below) + walk(tree, pids.last(), depth, below)
    }
}

/// The rows of the tree view of a snapshot: the walk from the root. No path
/// without a repetition is longer than the snapshot, which bounds the descent.
pub open spec fn tree_rows(s: Seq<EntryView>) -> Seq<RowView> {
    walk(tree_of(s), ROOT_PID, 0, s.len())
}

/// Parent pid to the ordered list of its children.
pub struct ProcessTree {
    children: HashMap<u32, Vec<u32>>,
}

impl View for ProcessTree {
    type V = Map<u32, Seq<u32>>;

    closed spec fn view(&self) -> Map<u32, Seq<u32>> {
        self.children@.map_values(|v: Vec<u32>| v@)
    }
}

impl ProcessTree {
    /// Builds the tree of a snapshot. Every pid is placed once, by its first
    /// entry, under its declared parent or, where the snapshot does not hold
    /// that parent, under the synthetic root; siblings keep snapshot order.
    pub fn build(snapshot: &Vec<ProcessSnapshotEntry>) -> (tree: ProcessTree)
        ensures
            tree@ == tree_of(snapshot_view(snapshot@)),
    {
        let ghost s = snapshot_view(snapshot@);
        let mut present: HashSet<u32> = HashSet::new();
        let mut i: usize = 0;
        while i < snapshot.len()
            invariant
                i <= snapshot.len(),
                s == snapshot_view(snapshot@),
                forall|pid: u32| present@.contains(pid) == pid_among(s, i as int, pid),
            decreases snapshot.len() - i,
        {
            let pid: u32 = snapshot[i].pid;
            present.insert(pid);
            proof {
                assert(s[i as int].pid == pid);
                lemma_pid_among_step(s, i as int);
            }
            i += 1;
        }
        let mut seen: HashSet<u32> = HashSet::new();
        let mut children: HashMap<u32, Vec<u32>> = HashMap::new();
        let mut i: usize = 0;
        while i < snapshot.len()
            invariant
                i <= snapshot.len(),
                s == snapshot_view(snapshot@),
                forall|pid: u32| present@.contains(pid) == has_pid(s, pid),
                forall|pid: u32| seen@.contains(pid) == pid_among(s, i as int, pid),
                forall|p: u32|
                    children@.contains_key(p) <==> (#[trigger] children_upto(s, p, i as nat)).len()
                        > 0,
                forall|p: u32|
                    children@.contains_key(p) ==> children@[p]@ == #[trigger] children_upto(
                        s,
                        p,
                        i as nat,
                    ),
            decreases snapshot.len() - i,
        {
            let pid: u32 = snapshot[i].pid;
            let declared: u32 = snapshot[i].parent;
            let fresh: bool = seen.insert(pid);
            proof {
                assert(s[i as int].pid == pid);
                assert(s[i as int].parent == declared);
                assert(fresh == is_first(s, i as int));
                lemma_pid_among_step(s, i as int);
            }
            if fresh && pid != ROOT_PID {
                let parent: u32 = if present.contains(&declared) {
                    declared
                } else {
                    ROOT_PID
                };
                assert(parent == effective_parent(s, i as int));
                let ghost before = children@;
                let mut list: Vec<u32> = match children.remove(&parent) {
                    Some(list) => list,
                    None => Vec::new(),
                };
                assert(children@ == before.remove(parent));
                assert(list@ =~= children_upto(s, parent, i as nat));
                list.push(pid);
                children.insert(parent, list);
                assert(children@ == before.remove(parent).insert(parent, list));
                assert(is_child(s, i as int, parent));
                assert(children_upto(s, parent, (i + 1) as nat) == children_upto(
                    s,
                    parent,
                    i as nat,
                ).push(pid));
                assert forall|p: u32| p != parent implies #[trigger] children_upto(
                    s,
                    p,
                    (i + 1) as nat,
                ) == children_upto(s, p, i as nat) by {
                    assert(!is_child(s, i as int, p));
                }
                assert forall|p: u32|
                    children@.contains_key(p) <==> (#[trigger] children_upto(
                        s,
                        p,
                        (i + 1) as nat,
                    )).len() > 0 by {
                    if p != parent {
                        assert(children@.contains_key(p) == before.contains_key(p));
                        assert(children_upto(s, p, (i + 1) as nat) == children_upto(
                            s,
                            p,
                            i as nat,
                        ));
                    }
                }
                assert forall|p: u32| children@.contains_key(p) implies children@[p]@
                    == #[trigger] children_upto(s, p, (i + 1) as nat) by {
                    if p != parent {
                        assert(before.contains_key(p));
                        assert(children@[p] == before[p]);
                        assert(children_upto(s, p, (i + 1) as nat) == children_upto(
                            s,
                            p,
                            i as nat,
                        ));
                    }
                }
            } else {
                assert forall|p: u32|
                    #[trigger] children_upto(s, p, (i + 1) as nat) == children_upto(
                        s,
                        p,
                        i as nat,
                    ) by {
                    assert(!is_child(s, i as int, p));
                }
            }
            let ghost done = (i + 1) as nat;
            i += 1;
            proof {
                assert forall|p: u32|
                    children@.contains_key(p) <==> (#[trigger] children_upto(s, p, i as nat)).len()
                        > 0 by {
                    assert(children_upto(s, p, i as nat) == children_upto(s, p, done));
                }
                assert forall|p: u32| children@.contains_key(p) implies children@[p]@
                    == #[trigger] children_upto(s, p, i as nat) by {
                    assert(children_upto(s, p, i as nat) == children_upto(s, p, done));
                }
            }
        }
        let tree = ProcessTree { children };
        assert(tree@ =~= tree_of(s));
        tree
    }

    /// The children listed under `pid`, oldest entry first.
    pub fn children(&self, pid: u32) -> (list: Vec<u32>)
        ensures
            list@ == kids(self@, pid),
    {
        let mut list: Vec<u32> = Vec::new();
        match self.children.get(&pid) {
            Some(found) => {
                let mut k: usize = 0;
                while k < found.len()
                    invariant
                        k <= found.len(),
                        list@ == found@.take(k as int),
                    decreases found.len() - k,
                {
                    list.push(found[k]);
                    k += 1;
                    assert(list@ =~= found@.take(k as int));
                }
                assert(found@.take(k as int) =~= found@);
            },
            None => {},
        }
        list
    }

    /// Appends the walk of the subtree of `pid` to `rows`.
    fn walk_from(&self, pid: u32, depth: usize, below: usize, rows: &mut Vec<TreeRow>)
        requires
            depth + below <= usize::MAX,
        ensures
            rows_view(final(rows)@) == rows_view(old(rows)@) + walk(
                self@,
                pid,
                depth as nat,
                below as nat,
            ),
        decreases below,
    {
        let ghost start = rows_view(rows@);
        let ghost row = RowView { pid, depth: depth as nat };
        rows.push(TreeRow { pid, depth });
        assert(rows_view(rows@) =~= start + seq![row]);
        if below > 0 {
            match self.children.get(&pid) {
                Some(list) => {
                    assert(list@ == kids(self@, pid));
                    let mut k: usize = 0;
                    while k < list.len()
                        invariant
                            k <= list.len(),
                            below > 0,
                            depth + below <= usize::MAX,
                            rows_view(rows@) == start + seq![row] + walk_each(
                                self@,
                                list@.take(k as int),
                                (depth + 1) as nat,
                                (below - 1) as nat,
                            ),
                        decreases list.len() - k,
                    {
                        let ghost so_far = rows_view(rows@);
                        self.walk_from(list[k], depth + 1, below - 1, rows);
                        proof {
                            assert(list@.take(k + 1).drop_last() =~= list@.take(k as int));
                            assert(list@.take(k + 1).last() == list@[k as int]);
                            assert(rows_view(rows@) =~= start + seq![row] + walk_each(
                                self@,
                                list@.take(k + 1),
                                (depth + 1) as nat,
                                (below - 1) as nat,
                            ));
                        }
                        k += 1;
                    }
                    assert(list@.take(k as int) =~= list@);
                },
                None => {
                    assert(kids(self@, pid) =~= Seq::<u32>::empty());
                    assert(rows_view(rows@) =~= start + walk(
                        self@,
                        pid,
                        depth as nat,
                        below as nat,
                    ));
                },
            }
            assert(rows_view(rows@) =~= start + walk(self@, pid, depth as nat, below as nat));
        }
    }

    /// The depth-first pre-order walk from the root, which stands at depth 0;
    /// processes deeper than `limit` are not reached.
    pub fn walk(&self, limit: usize) -> (rows: Vec<TreeRow>)
        ensures
            rows_view(rows@) == walk(self@, ROOT_PID, 0, limit as nat),
    {
        let mut rows: Vec<TreeRow> = Vec::new();
        self.walk_from(ROOT_PID, 0, limit, &mut rows);
        assert(rows_view(rows@) =~= walk(self@, ROOT_PID, 0, limit as nat));
        rows
    }
}

/// A child is listed under its parent as soon as its entry has been read.
pub proof fn lemma_child_is_listed(s: Seq<EntryView>, parent: u32, i: int, n: nat)
    requires
        is_child(s, i, parent),
        i < n <= s.len(),
    ensures
        children_upto(s, parent, n).contains(s[i].pid),
    decreases n,
{
    let now = children_upto(s, parent, n);
    if i == n - 1 {
        assert(now[now.len() - 1] == s[i].pid);
    } else {
        lemma_child_is_listed(s, parent, i, (n - 1) as nat);
        let before = children_upto(s, parent, (n - 1) as nat);
        let k = choose|k: int| 0 <= k < before.len() && before[k] == s[i].pid;
        assert(now[k] == s[i].pid);
    }
}

/// The walk of several subtrees shows the root of each of them, at the
/// depth at which the subtrees stand.
pub proof fn lemma_walk_each_shows_every_root(
    tree: Map<u32, Seq<u32>>,
    pids: Seq<u32>,
    depth: nat,
    below: nat,
    j: int,
)
    requires
        0 <= j < pids.len(),
    ensures
        walk_each(tree, pids, depth, below).contains(RowView { pid: pids[j], depth }),
    decreases pids.len(),
{
    let row = RowView { pid: pids[j], depth };
    let front = walk_each(tree, pids.drop_last(), depth, below);
    let back = walk(tree, pids.last(), depth, below);
    assert(walk_each(tree, pids, depth, below) == front + back);
    if j == pids.len() - 1 {
        assert(back[0] == row);
        assert((front + back)[front.len() as int] == row);
    } else {
        lemma_walk_each_shows_every_root(tree, pids.drop_last(), depth, below, j);
        let k = choose|k: int| 0 <= k < front.len() && front[k] == row;
        assert((front + back)[k] == row);
    }
}

/// A process that hangs under the root is shown one level below it.
pub proof fn lemma_root_child_is_shown(s: Seq<EntryView>, i: int)
    requires
        is_child(s, i, ROOT_PID),
    ensures
        children_of(s, ROOT_PID).contains(s[i].pid),
        tree_rows(s).contains(RowView { pid: s[i].pid, depth: 1 }),
{
    let tree = tree_of(s);
    let row = RowView { pid: s[i].pid, depth: 1 };
    lemma_child_is_listed(s, ROOT_PID, i, s.len());
    let list = children_of(s, ROOT_PID);
    let j = choose|j: int| 0 <= j < list.len() && list[j] == s[i].pid;
    assert(kids(tree, ROOT_PID) == list);
    lemma_walk_each_shows_every_root(tree, list, 1, (s.len() - 1) as nat, j);
    let below_root = walk_each(tree, list, 1, (s.len() - 1) as nat);
    let k = choose|k: int| 0 <= k < below_root.len() && below_root[k] == row;
    assert(tree_rows(s) == seq![RowView { pid: ROOT_PID, depth: 0 }] + below_root);
    assert(tree_rows(s)[k + 1] == row);
}

/// A process whose declared parent the snapshot does not hold is not
/// dropped: its first entry places it under the synthetic root, and the walk
/// shows it one level below the root.
pub proof fn law_orphan_hangs_under_root(s: Seq<EntryView>, i: int)
    requires
        is_first(s, i),
        s[i].pid != ROOT_PID,
        !has_pid(s, s[i].parent),
    ensures
        children_of(s, ROOT_PID).contains(s[i].pid),
        tree_rows(s).contains(RowView { pid: s[i].pid, depth: 1 }),
{
    lemma_root_child_is_shown(s, i);
}

/// In `rows`, every process shown above the depth `limit` is followed, one
/// level deeper, by each child that `tree` lists under it.
pub open spec fn children_follow(tree: Map<u32, Seq<u32>>, rows: Seq<RowView>, limit: nat) -> bool {
    forall|k: int, j: int|
        0 <= k < rows.len() && rows[k].depth < limit && 0 <= j < kids(tree, rows[k].pid).len()
            ==> #[trigger] child_follows(tree, rows, k, j)
}

/// Somewhere after row `k`, `rows` shows the `j`-th child of its process,
/// one level deeper.
pub open spec fn child_follows(tree: Map<u32, Seq<u32>>, rows: Seq<RowView>, k: int, j: int) -> bool {
    exists|l: int| k < l < rows.len() && #[trigger] rows[l] == shown_child(tree, rows[k], j)
}

/// The row of the `j`-th child of the process of `row`.
pub open spec fn shown_child(tree: Map<u32, Seq<u32>>, row: RowView, j: int) -> RowView {
    RowView { pid: kids(tree, row.pid)[j], depth: row.depth + 1 }
}

proof fn lemma_children_follow_in_both(
    tree: Map<u32, Seq<u32>>,
    front: Seq<RowView>,
    back: Seq<RowView>,
    limit: nat,
)
    requires
        children_follow(tree, front, limit),
        children_follow(tree, back, limit),
    ensures
        children_follow(tree, front + back, limit),
{
    let rows = front + back;
    assert forall|k: int, j: int|
        0 <= k < rows.len() && rows[k].depth < limit && 0 <= j < kids(
            tree,
            rows[k].pid,
        ).len() implies #[trigger] child_follows(tree, rows, k, j) by {
        if k < front.len() {
            assert(rows[k] == front[k]);
            assert(child_follows(tree, front, k, j));
            let l = choose|l: int|
                k < l < front.len() && #[trigger] front[l] == shown_child(tree, front[k], j);
            assert(rows[l] == shown_child(tree, rows[k], j));
        } else {
            let kb = k - front.len();
            assert(rows[k] == back[kb]);
            assert(child_follows(tree, back, kb, j));
            let l = choose|l: int|
                kb < l < back.len() && #[trigger] back[l] == shown_child(tree, back[kb], j);
            assert(rows[front.len() + l] == shown_child(tree, rows[k], j));
        }
    }
}

proof fn lemma_children_follow_in_walk(tree: Map<u32, Seq<u32>>, pid: u32, depth: nat, below: nat)
    ensures
        children_follow(tree, walk(tree, pid, depth, below), depth + below),
    decreases below, 0nat,
{
    let rows = walk(tree, pid, depth, below);
    let limit = depth + below;
    let head = seq![RowView { pid, depth }];
    if below > 0 {
        let list = kids(tree, pid);
        let rest = walk_each(tree, list, depth + 1, (below - 1) as nat);
        lemma_children_follow_in_walk_each(tree, list, depth + 1, (below - 1) as nat);
        assert(rows == head + rest);
        assert forall|k: int, j: int|
            0 <= k < rows.len() && rows[k].depth < limit && 0 <= j < kids(
                tree,
                rows[k].pid,
            ).len() implies #[trigger] child_follows(tree, rows, k, j) by {
            if k == 0 {
                lemma_walk_each_shows_every_root(tree, list, depth + 1, (below - 1) as nat, j);
                let l = choose|l: int|
                    0 <= l < rest.len() && rest[l] == (RowView { pid: list[j], depth: depth + 1 });
                assert(rows[l + 1] == shown_child(tree, rows[k], j));
            } else {
                assert(rows[k] == rest[k - 1]);
                assert(child_follows(tree, rest, k - 1, j));
                let l = choose|l: int|
                    k - 1 < l < rest.len() && #[trigger] rest[l] == shown_child(
                        tree,
                        rest[k - 1],
                        j,
                    );
                assert(rows[l + 1] == shown_child(tree, rows[k], j));
            }
        }
    }
}

proof fn lemma_children_follow_in_walk_each(
    tree: Map<u32, Seq<u32>>,
    pids: Seq<u32>,
    depth: nat,
    below: nat,
)
    ensures
        children_follow(tree, walk_each(tree, pids, depth, below), depth + below),
    decreases below, pids.len() + 1,
{
    if pids.len() > 0 {
        lemma_children_follow_in_walk_each(tree, pids.drop_last(), depth, below);
        lemma_children_follow_in_walk(tree, pids.last(), depth, below);
        lemma_children_follow_in_both(
            tree,
            walk_each(tree, pids.drop_last(), depth, below),
            walk(tree, pids.last(), depth, below),
            depth + below,
        );
    }
}

/// The walk of a snapshot is one depth-first pass: wherever it shows a
/// process, it shows further on, one level deeper, every process whose first
/// entry names that process as its parent.
pub proof fn law_child_follows_parent_one_level_deeper(s: Seq<EntryView>, i: int, k: int)
    requires
        is_first(s, i),
        s[i].pid != ROOT_PID,
        has_pid(s, s[i].parent),
        0 <= k < tree_rows(s).len(),
        tree_rows(s)[k].pid == s[i].parent,
        tree_rows(s)[k].depth < s.len(),
    ensures
        exists|l: int|
            k < l < tree_rows(s).len() && #[trigger] tree_rows(s)[l] == (RowView {
                pid: s[i].pid,
                depth: tree_rows(s)[k].depth + 1,
            }),
{
    let tree = tree_of(s);
    let rows = tree_rows(s);
    let parent = s[i].parent;
    lemma_children_follow_in_walk(tree, ROOT_PID, 0, s.len());
    lemma_child_is_listed(s, parent, i, s.len());
    let list = children_of(s, parent);
    let j = choose|j: int| 0 <= j < list.len() && list[j] == s[i].pid;
    assert(kids(tree, parent) == list);
    assert(child_follows(tree, rows, k, j));
    let l = choose|l: int| k < l < rows.len() && #[trigger] rows[l] == shown_child(tree, rows[k], j);
    assert(rows[l] == (RowView { pid: s[i].pid, depth: rows[k].depth + 1 }));
}

/// How many levels below the root the process `pid` stands: one more than
/// its parent, as far as `fuel` levels of parents lead to the root.
pub open spec fn level_of(s: Seq<EntryView>, pid: u32, fuel: nat) -> Option<nat>
    decreases fuel,
{
    let parent = effective_parent(s, first_with_pid(s, s.len() as int, pid));
    if fuel == 0 {
        None
    } else if parent == ROOT_PID {
        Some(1)
    } else {
        match level_of(s, parent, (fuel - 1) as nat) {
            Some(level) => Some(level + 1),
            None => None,
        }
    }
}

proof fn lemma_level_is_shown(s: Seq<EntryView>, pid: u32, fuel: nat)
    requires
        has_pid(s, pid),
        pid != ROOT_PID,
        fuel <= s.len(),
        level_of(s, pid, fuel) is Some,
    ensures
        1 <= level_of(s, pid, fuel)->0 <= fuel,
        tree_rows(s).contains(RowView { pid, depth: level_of(s, pid, fuel)->0 }),
    decreases fuel,
{
    lemma_first_with_pid(s, s.len() as int, pid);
    let i = first_with_pid(s, s.len() as int, pid);
    let parent = effective_parent(s, i);
    if parent == ROOT_PID {
        lemma_root_child_is_shown(s, i);
    } else {
        lemma_level_is_shown(s, parent, (fuel - 1) as nat);
        let above = RowView { pid: parent, depth: level_of(s, parent, (fuel - 1) as nat)->0 };
        let k = choose|k: int| 0 <= k < tree_rows(s).len() && tree_rows(s)[k] == above;
        law_child_follows_parent_one_level_deeper(s, i, k);
    }
}

/// No process of a well-formed process table is dropped from the tree: one
/// whose chain of parents leads to the root is shown, as many levels below
/// the root as the chain is long.
pub proof fn law_process_is_shown_at_its_level(s: Seq<EntryView>, pid: u32)
    requires
        has_pid(s, pid),
        pid != ROOT_PID,
        level_of(s, pid, s.len()) is Some,
    ensures
        tree_rows(s).contains(RowView { pid, depth: level_of(s, pid, s.len())->0 }),
{
    lemma_level_is_shown(s, pid, s.len());
}

} // verus!
