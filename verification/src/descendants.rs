//! Descendant closure: the full set of processes transitively spawned by a
//! set of root processes, computed from one static snapshot.
//!
//! Some launchers re-execute themselves under a new process ID, so direct
//! children alone are not enough to find the process that eventually owns
//! the main window; the closure over all descendants compensates.  The
//! walk repeatedly adds any process whose parent is already reached, so it
//! terminates on every snapshot and collects exactly the processes
//! reachable from the roots, in whatever order the snapshot lists them.

use vstd::prelude::*;

use crate::process::ProcessRecord;
use crate::process::contains_pid;

verus! {

/// A pid set is closed under the parent-to-child relation of a snapshot:
/// whenever it holds a record's parent, it holds the record's process too.
pub open spec fn closed_under_children(records: Seq<ProcessRecord>, s: Set<u32>) -> bool {
    forall|j: int|
        0 <= j < records.len() && s.contains((#[trigger] records[j]).parent_pid) ==> s.contains(
            records[j].pid,
        )
}

/// What a descendant computation returns: a set disjoint from the roots
/// that, together with the roots, is closed under the child relation, and
/// that is contained in every closed superset of the roots.  These three
/// clauses pin the set down: it is exactly the processes reachable from
/// the roots, minus the roots themselves.
pub open spec fn is_descendant_set(
    records: Seq<ProcessRecord>,
    roots: Set<u32>,
    d: Set<u32>,
) -> bool {
    &&& forall|p: u32| d.contains(p) ==> !roots.contains(p)
    &&& closed_under_children(records, roots.union(d))
    &&& forall|s: Set<u32>|
        roots.subset_of(s) && #[trigger] closed_under_children(records, s) ==> d.subset_of(s)
}

/// While the walk runs: a record whose parent is already reached is either
/// itself reached, or its parent still waits in the queue for expansion.
spec fn settled_or_pending(
    records: Seq<ProcessRecord>,
    roots: Seq<u32>,
    result: Seq<u32>,
    queue: Seq<u32>,
    j: int,
) -> bool {
    (roots.contains(records[j].parent_pid) || result.contains(records[j].parent_pid)) ==> {
        ||| roots.contains(records[j].pid)
        ||| result.contains(records[j].pid)
        ||| queue.contains(records[j].parent_pid)
    }
}

/// The collected pids cannot outnumber the snapshot rows: each was
/// discovered by a distinct record.
proof fn lemma_result_bounded(result: Seq<u32>, srcs: Seq<int>, records: Seq<ProcessRecord>)
    requires
        srcs.len() == result.len(),
        result.no_duplicates(),
        forall|k: int|
            0 <= k < srcs.len() ==> 0 <= #[trigger] srcs[k] < records.len()
                && records[srcs[k]].pid == result[k],
    ensures
        result.len() <= records.len(),
{
    assert(srcs.no_duplicates()) by {
        assert forall|k1: int, k2: int|
            0 <= k1 < srcs.len() && 0 <= k2 < srcs.len() && k1 != k2 implies srcs[k1]
            != srcs[k2] by {
            if srcs[k1] == srcs[k2] {
                assert(result[k1] == result[k2]);
            }
        }
    }
    srcs.unique_seq_to_set();
    vstd::seq_lib::seq_to_set_is_finite(srcs);
    vstd::set_lib::lemma_int_range(0, records.len() as int);
    assert(srcs.to_set().subset_of(vstd::set_lib::set_int_range(0, records.len() as int)));
    vstd::set_lib::lemma_len_subset(
        srcs.to_set(),
        vstd::set_lib::set_int_range(0, records.len() as int),
    );
}

/// Collects every descendant (child, grandchild, ...) of the given root
/// pids from one snapshot, excluding the roots themselves.  A pid that
/// also happens to equal a root is never re-added as its own descendant.
pub fn descendant_pids(records: &Vec<ProcessRecord>, root_pids: &Vec<u32>) -> (d: Vec<u32>)
    ensures
        d@.no_duplicates(),
        is_descendant_set(records@, root_pids@.to_set(), d@.to_set()),
{
    let mut result: Vec<u32> = Vec::new();
    let mut queue: Vec<u32> = Vec::new();
    let mut i: usize = 0;
    while i < root_pids.len()
        invariant
            i <= root_pids@.len(),
            queue@ == root_pids@.subrange(0, i as int),
        decreases root_pids@.len() - i,
    {
        queue.push(root_pids[i]);
        proof {
            assert(queue@ =~= root_pids@.subrange(0, i + 1));
        }
        i = i + 1;
    }
    proof {
        assert(queue@ =~= root_pids@);
    }
    let ghost mut srcs: Seq<int> = Seq::empty();
    while queue.len() > 0
        invariant
            result@.no_duplicates(),
            forall|p: u32| #[trigger] result@.contains(p) ==> !root_pids@.contains(p),
            srcs.len() == result@.len(),
            forall|k: int|
                0 <= k < srcs.len() ==> 0 <= #[trigger] srcs[k] < records@.len()
                    && records@[srcs[k]].pid == result@[k],
            result@.len() <= records@.len(),
            forall|k: int|
                0 <= k < queue@.len() ==> root_pids@.contains(#[trigger] queue@[k])
                    || result@.contains(queue@[k]),
            forall|j: int|
                0 <= j < records@.len() ==> #[trigger] settled_or_pending(
                    records@,
                    root_pids@,
                    result@,
                    queue@,
                    j,
                ),
            forall|s: Set<u32>|
                root_pids@.to_set().subset_of(s) && #[trigger] closed_under_children(records@, s)
                    ==> result@.to_set().subset_of(s),
        decreases records@.len() - result@.len(), queue@.len(),
    {
        let ghost pre_queue = queue@;
        let ghost head_result = result@;
        let cur = queue.pop().unwrap();
        proof {
            assert(cur == pre_queue.last());
            assert(root_pids@.contains(cur) || result@.contains(cur)) by {
                assert(pre_queue[pre_queue.len() - 1] == cur);
            }
            assert forall|j: int| 0 <= j < records@.len() implies settled_or_pending(
                records@,
                root_pids@,
                result@,
                queue@,
                j,
            ) || records@[j].parent_pid == cur by {
                let par = records@[j].parent_pid;
                assert(settled_or_pending(records@, root_pids@, result@, pre_queue, j));
                if (root_pids@.contains(par) || result@.contains(par)) && !(root_pids@.contains(
                    records@[j].pid,
                ) || result@.contains(records@[j].pid)) {
                    assert(pre_queue.contains(par));
                    if !queue@.contains(par) {
                        let k = choose|k: int| 0 <= k < pre_queue.len() && pre_queue[k] == par;
                        if k < pre_queue.len() - 1 {
                            assert(queue@[k] == par);
                            assert(queue@.contains(par));
                        }
                        assert(par == cur);
                    }
                }
            }
        }
        let mut j: usize = 0;
        while j < records.len()
            invariant
                result@.len() >= head_result.len(),
                result@.len() == head_result.len() ==> queue@.len() == pre_queue.len() - 1,
                pre_queue.len() >= 1,
                result@.no_duplicates(),
                forall|p: u32| #[trigger] result@.contains(p) ==> !root_pids@.contains(p),
                srcs.len() == result@.len(),
                forall|k: int|
                    0 <= k < srcs.len() ==> 0 <= #[trigger] srcs[k] < records@.len()
                        && records@[srcs[k]].pid == result@[k],
                result@.len() <= records@.len(),
                root_pids@.contains(cur) || result@.contains(cur),
                forall|k: int|
                    0 <= k < queue@.len() ==> root_pids@.contains(#[trigger] queue@[k])
                        || result@.contains(queue@[k]),
                forall|jj: int|
                    0 <= jj < records@.len() ==> #[trigger] settled_or_pending(
                        records@,
                        root_pids@,
                        result@,
                        queue@,
                        jj,
                    ) || (records@[jj].parent_pid == cur && j <= jj),
                forall|s: Set<u32>|
                    root_pids@.to_set().subset_of(s) && #[trigger] closed_under_children(
                        records@,
                        s,
                    ) ==> result@.to_set().subset_of(s),
            decreases records@.len() - j,
        {
            let ghost old_result = result@;
            let ghost old_queue = queue@;
            if records[j].parent_pid == cur {
                let pid = records[j].pid;
                if !contains_pid(root_pids, pid) && !contains_pid(&result, pid) {
                    result.push(pid);
                    queue.push(pid);
                    proof {
                        srcs = srcs.push(j as int);
                        assert(result@.no_duplicates()) by {
                            assert(forall|k: int|
                                0 <= k < old_result.len() ==> old_result[k] != pid);
                        }
                        lemma_result_bounded(result@, srcs, records@);
                        assert forall|p: u32| #[trigger] result@.contains(p) implies
                            old_result.contains(p) || p == pid by {
                            let k = choose|k: int| 0 <= k < result@.len() && result@[k] == p;
                            if k < old_result.len() {
                                assert(old_result[k] == p);
                            }
                        }
                        assert(result@.contains(pid)) by {
                            assert(result@[result@.len() - 1] == pid);
                        }
                        assert(queue@.contains(pid)) by {
                            assert(queue@[queue@.len() - 1] == pid);
                        }
                        assert forall|p: u32| old_result.contains(p) implies #[trigger] result@
                            .contains(p) by {
                            let k = choose|k: int| 0 <= k < old_result.len() && old_result[k] == p;
                            assert(result@[k] == p);
                        }
                        assert forall|k: int| 0 <= k < queue@.len() implies root_pids@.contains(
                            #[trigger] queue@[k],
                        ) || result@.contains(queue@[k]) by {
                            if k < old_queue.len() {
                                assert(old_queue[k] == queue@[k]);
                            }
                        }
                        assert forall|s: Set<u32>|
                            root_pids@.to_set().subset_of(s) && #[trigger] closed_under_children(
                                records@,
                                s,
                            ) implies result@.to_set().subset_of(s) by {
                            assert(old_result.to_set().subset_of(s));
                            assert(s.contains(cur)) by {
                                if root_pids@.contains(cur) {
                                    assert(root_pids@.to_set().contains(cur));
                                } else {
                                    assert(old_result.contains(cur));
                                    assert(old_result.to_set().contains(cur));
                                }
                            }
                            assert(s.contains(records@[j as int].parent_pid));
                            assert(s.contains(records@[j as int].pid));
                            assert forall|p: u32| result@.to_set().contains(p) implies s.contains(
                                p,
                            ) by {
                                if p != pid {
                                    assert(old_result.contains(p));
                                    assert(old_result.to_set().contains(p));
                                }
                            }
                        }
                    }
                }
            }
            proof {
                assert forall|jj: int| 0 <= jj < records@.len() implies settled_or_pending(
                    records@,
                    root_pids@,
                    result@,
                    queue@,
                    jj,
                ) || (records@[jj].parent_pid == cur && j + 1 <= jj) by {
                    let par = records@[jj].parent_pid;
                    if root_pids@.contains(par) || result@.contains(par) {
                        if root_pids@.contains(par) || old_result.contains(par) {
                            // the parent was already reached before this step
                            if settled_or_pending(records@, root_pids@, old_result, old_queue, jj) {
                                if old_result.contains(records@[jj].pid) {
                                    assert(result@.contains(records@[jj].pid));
                                } else if old_queue.contains(par) {
                                    let k = choose|k: int|
                                        0 <= k < old_queue.len() && old_queue[k] == par;
                                    assert(queue@[k] == par);
                                    assert(queue@.contains(par));
                                }
                            } else {
                                // the old cur-disjunct: this record waits for cur
                                assert(par == cur && j <= jj);
                                if jj == j {
                                    // this very record was just examined
                                    if !(root_pids@.contains(records@[jj].pid)
                                        || result@.contains(records@[jj].pid)) {
                                        assert(result@.contains(records@[jj].pid));
                                    }
                                }
                            }
                        } else {
                            // the parent was reached in this very step: it is queued
                            assert(result@ != old_result);
                            assert(par == records@[j as int].pid);
                            assert(queue@.contains(par));
                        }
                    }
                }
            }
            j = j + 1;
        }
    }
    proof {
        let roots_set = root_pids@.to_set();
        let d_set = result@.to_set();
        assert forall|j: int|
            0 <= j < records@.len() && roots_set.union(d_set).contains(
                (#[trigger] records@[j]).parent_pid,
            ) implies roots_set.union(d_set).contains(records@[j].pid) by {
            assert(settled_or_pending(records@, root_pids@, result@, queue@, j));
            assert(!queue@.contains(records@[j].parent_pid));
        }
        assert(closed_under_children(records@, roots_set.union(d_set)));
    }
    result
}

/// Law: the descendants of a set of roots never include a root.
pub proof fn lemma_descendants_exclude_roots(
    records: Seq<ProcessRecord>,
    roots: Set<u32>,
    d: Set<u32>,
)
    requires
        is_descendant_set(records, roots, d),
    ensures
        forall|p: u32| d.contains(p) ==> !roots.contains(p),
{
}

/// Law: the computation is idempotent: running it again on the roots
/// together with their descendants, over the same snapshot, discovers
/// nothing new.
pub proof fn lemma_descendants_idempotent(
    records: Seq<ProcessRecord>,
    roots: Set<u32>,
    d1: Set<u32>,
    d2: Set<u32>,
)
    requires
        is_descendant_set(records, roots, d1),
        is_descendant_set(records, roots.union(d1), d2),
    ensures
        d2 =~= Set::<u32>::empty(),
{
    let c = roots.union(d1);
    assert(closed_under_children(records, c));
    assert(c.subset_of(c));
    assert(d2.subset_of(c));
    assert forall|p: u32| !d2.contains(p) by {
        if d2.contains(p) {
            assert(c.contains(p));
            assert(!c.contains(p));
        }
    }
}

/// Law: the contract pins the result down: two sets that both satisfy it
/// for the same snapshot and roots are equal.
pub proof fn lemma_descendant_set_unique(
    records: Seq<ProcessRecord>,
    roots: Set<u32>,
    d1: Set<u32>,
    d2: Set<u32>,
)
    requires
        is_descendant_set(records, roots, d1),
        is_descendant_set(records, roots, d2),
    ensures
        d1 =~= d2,
{
    assert(d1.subset_of(roots.union(d2)));
    assert(d2.subset_of(roots.union(d1)));
    assert forall|p: u32| d1.contains(p) implies d2.contains(p) by {
        assert(roots.union(d2).contains(p));
    }
    assert forall|p: u32| d2.contains(p) implies d1.contains(p) by {
        assert(roots.union(d1).contains(p));
    }
}

} // verus!
