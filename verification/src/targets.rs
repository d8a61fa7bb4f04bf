//! Which processes of the process table a tick records.

use vstd::prelude::*;

use crate::process::ProcInfo;
use crate::tree::below_by;
use crate::tree::distinct_pids;
use crate::tree::family;
use crate::tree::family_ends;
use crate::tree::in_family;
use crate::tree::law_family_holds_the_children_of_its_members;
use crate::tree::law_family_is_the_descendants;
use crate::tree::law_family_is_the_smallest_such_group;
use crate::tree::law_family_lists_each_once;
use crate::tree::law_ordered_processes_have_finite_families;
use crate::tree::law_tree_has_one_parent_each;
use crate::tree::tree_of;

verus! {

/// The place in `procs` of the first process with the id `pid`.
pub open spec fn place_of(procs: Seq<ProcInfo>, pid: u32) -> Option<int>
    decreases procs.len(),
{
    if procs.len() == 0 {
        None
    } else {
        match place_of(procs.drop_last(), pid) {
            Some(i) => Some(i),
            None => if procs.last().pid == pid {
                Some(procs.len() - 1)
            } else {
                None
            },
        }
    }
}

proof fn lemma_place_of(procs: Seq<ProcInfo>, pid: u32)
    ensures
        place_of(procs, pid) matches Some(i) ==> 0 <= i < procs.len() && procs[i].pid == pid,
        place_of(procs, pid) is None ==> forall|i: int|
            0 <= i < procs.len() ==> (#[trigger] procs[i]).pid != pid,
    decreases procs.len(),
{
    if procs.len() > 0 {
        let rest = procs.drop_last();
        lemma_place_of(rest, pid);
        if place_of(procs, pid) is None {
            assert forall|i: int| 0 <= i < procs.len() implies (#[trigger] procs[i]).pid != pid by {
                if i < rest.len() {
                    assert(rest[i] == procs[i]);
                }
            }
        }
    }
}

proof fn lemma_place_in_front(procs: Seq<ProcInfo>, pid: u32, n: int)
    requires
        0 <= n <= procs.len(),
        place_of(procs.take(n), pid) is Some,
    ensures
        place_of(procs, pid) == place_of(procs.take(n), pid),
    decreases procs.len() - n,
{
    if n < procs.len() {
        assert(procs.take(n + 1).drop_last() =~= procs.take(n));
        lemma_place_in_front(procs, pid, n + 1);
    } else {
        assert(procs.take(n) =~= procs);
    }
}

fn find_process(procs: &Vec<ProcInfo>, pid: u32) -> (place: Option<usize>)
    ensures
        match place {
            Some(i) => place_of(procs@, pid) == Some(i as int),
            None => place_of(procs@, pid) is None,
        },
{
    let mut i: usize = 0;
    while i < procs.len()
        invariant
            i <= procs.len(),
            place_of(procs@.take(i as int), pid) is None,
        decreases procs.len() - i,
    {
        assert(procs@.take(i + 1).drop_last() =~= procs@.take(i as int));
        if procs[i].pid == pid {
            proof {
                lemma_place_in_front(procs@, pid, i + 1);
            }
            return Some(i);
        }
        i = i + 1;
    }
    assert(procs@.take(i as int) =~= procs@);
    None
}

/// The places in `procs` of the processes with the ids `pids`. An id without a process is
/// left out.
pub open spec fn places(pids: Seq<u32>, procs: Seq<ProcInfo>) -> Seq<int>
    decreases pids.len(),
{
    if pids.len() == 0 {
        Seq::empty()
    } else {
        match place_of(procs, pids.last()) {
            Some(i) => places(pids.drop_last(), procs).push(i),
            None => places(pids.drop_last(), procs),
        }
    }
}

pub(crate) fn find_all(pids: &Vec<u32>, procs: &Vec<ProcInfo>) -> (list: Vec<usize>)
    ensures
        as_places(list@) == places(pids@, procs@),
        forall|k: int| 0 <= k < list@.len() ==> #[trigger] list@[k] < procs@.len(),
{
    let mut list: Vec<usize> = Vec::new();
    let mut i: usize = 0;
    assert(as_places(list@) =~= places(pids@.take(0), procs@));
    while i < pids.len()
        invariant
            i <= pids.len(),
            as_places(list@) == places(pids@.take(i as int), procs@),
            forall|k: int| 0 <= k < list@.len() ==> #[trigger] list@[k] < procs@.len(),
        decreases pids.len() - i,
    {
        let ghost before = list@;
        assert(pids@.take(i + 1).drop_last() =~= pids@.take(i as int));
        if let Some(place) = find_process(procs, pids[i]) {
            proof {
                lemma_place_of(procs@, pids@[i as int]);
            }
            list.push(place);
            assert(as_places(list@) =~= as_places(before).push(place as int));
        }
        i = i + 1;
    }
    assert(pids@.take(i as int) =~= pids@);
    list
}

/// The places of the processes that a tick records: all of them, or `pid` and its
/// descendants.
pub open spec fn target_places(procs: Seq<ProcInfo>, pid: Option<u32>) -> Seq<int> {
    match pid {
        None => Seq::new(procs.len(), |i: int| i),
        Some(root) => places(family(tree_of(procs), root), procs),
    }
}

/// A list of places as mathematical integers.
pub open spec fn as_places(list: Seq<usize>) -> Seq<int> {
    list.map_values(|t: usize| t as int)
}

pub(crate) fn all_places(n: usize) -> (list: Vec<usize>)
    ensures
        as_places(list@) == Seq::new(n as nat, |i: int| i),
        forall|k: int| 0 <= k < list@.len() ==> #[trigger] list@[k] < n,
{
    let mut list: Vec<usize> = Vec::new();
    let mut i: usize = 0;
    while i < n
        invariant
            i <= n,
            list@.len() == i,
            forall|k: int| 0 <= k < i ==> #[trigger] list@[k] == k,
        decreases n - i,
    {
        list.push(i);
        i = i + 1;
    }
    assert(as_places(list@) =~= Seq::new(n as nat, |i: int| i));
    list
}

/// Whether the family that the collector watches has a last generation. That of all
/// processes has.
pub open spec fn can_be_listed(procs: Seq<ProcInfo>, pid: Option<u32>) -> bool {
    match pid {
        Some(root) => family_ends(tree_of(procs), root),
        None => true,
    }
}

proof fn lemma_places(pids: Seq<u32>, procs: Seq<ProcInfo>)
    ensures
        forall|k: int|
            0 <= k < places(pids, procs).len() ==> {
                &&& 0 <= #[trigger] places(pids, procs)[k] < procs.len()
                &&& pids.contains(procs[places(pids, procs)[k]].pid)
            },
    decreases pids.len(),
{
    if pids.len() > 0 {
        let rest = pids.drop_last();
        lemma_places(rest, procs);
        lemma_place_of(procs, pids.last());
        assert forall|k: int| 0 <= k < places(pids, procs).len() implies {
            &&& 0 <= #[trigger] places(pids, procs)[k] < procs.len()
            &&& pids.contains(procs[places(pids, procs)[k]].pid)
        } by {
            if k < places(rest, procs).len() {
                let pid = procs[places(rest, procs)[k]].pid;
                let i = choose|i: int| 0 <= i < rest.len() && rest[i] == pid;
                assert(pids[i] == pid);
            } else {
                assert(pids[pids.len() - 1] == pids.last());
            }
        }
    }
}

proof fn lemma_places_cover(pids: Seq<u32>, procs: Seq<ProcInfo>, t: int)
    requires
        distinct_pids(procs),
        0 <= t < procs.len(),
        pids.contains(procs[t].pid),
    ensures
        places(pids, procs).contains(t),
    decreases pids.len(),
{
    let i = choose|i: int| 0 <= i < pids.len() && pids[i] == procs[t].pid;
    let rest = pids.drop_last();
    let all = places(pids, procs);
    if i == pids.len() - 1 {
        lemma_place_of(procs, pids.last());
        assert(place_of(procs, pids.last()) == Some(t));
        assert(all[all.len() - 1] == t);
    } else {
        assert(rest[i] == procs[t].pid);
        lemma_places_cover(rest, procs, t);
        let before = places(rest, procs);
        let k = choose|k: int| 0 <= k < before.len() && before[k] == t;
        assert(all[k] == t);
    }
}

proof fn lemma_places_once(pids: Seq<u32>, procs: Seq<ProcInfo>)
    requires
        pids.no_duplicates(),
    ensures
        places(pids, procs).no_duplicates(),
    decreases pids.len(),
{
    if pids.len() > 0 {
        let rest = pids.drop_last();
        lemma_places_once(rest, procs);
        lemma_places(rest, procs);
        lemma_place_of(procs, pids.last());
        let before = places(rest, procs);
        let all = places(pids, procs);
        assert forall|i: int, j: int|
            0 <= i < all.len() && 0 <= j < all.len() && i != j implies all[i] != all[j] by {
            if i == before.len() || j == before.len() {
                let k = if i == before.len() {
                    j
                } else {
                    i
                };
                let pid = procs[before[k]].pid;
                let m = choose|m: int| 0 <= m < rest.len() && rest[m] == pid;
                assert(pids[m] == pid);
                assert(pids[pids.len() - 1] == pids.last());
                assert(all[k] == before[k]);
            }
        }
    }
}

/// A tick records each process at most once.
pub proof fn law_each_process_is_recorded_once(procs: Seq<ProcInfo>, pid: Option<u32>)
    requires
        distinct_pids(procs),
        can_be_listed(procs, pid),
    ensures
        target_places(procs, pid).no_duplicates(),
{
    if let Some(root) = pid {
        law_tree_has_one_parent_each(procs);
        law_family_lists_each_once(tree_of(procs), root);
        lemma_places_once(family(tree_of(procs), root), procs);
    }
}

/// A tick records every process, or, where one is watched, exactly those that are it or
/// descend from it.
pub proof fn law_the_right_processes_are_recorded(procs: Seq<ProcInfo>, pid: Option<u32>, t: int)
    requires
        distinct_pids(procs),
        can_be_listed(procs, pid),
    ensures
        target_places(procs, pid).contains(t) <==> 0 <= t < procs.len() && (match pid {
            None => true,
            Some(root) => in_family(tree_of(procs), root, procs[t].pid),
        }),
{
    let targets = target_places(procs, pid);
    match pid {
        None => {
            if 0 <= t < procs.len() {
                assert(targets[t] == t);
            }
        },
        Some(root) => {
            let pids = family(tree_of(procs), root);
            lemma_places(pids, procs);
            if targets.contains(t) {
                let k = choose|k: int| 0 <= k < targets.len() && targets[k] == t;
                assert(pids.contains(procs[t].pid));
            }
            if 0 <= t < procs.len() {
                law_family_is_the_descendants(tree_of(procs), root, procs[t].pid);
                if pids.contains(procs[t].pid) {
                    lemma_places_cover(pids, procs, t);
                }
            }
        },
    }
}

/// Without a process to watch, a tick records all processes in their order.
pub proof fn law_all_processes_are_recorded_in_order(procs: Seq<ProcInfo>)
    ensures
        can_be_listed(procs, None),
        target_places(procs, None).len() == procs.len(),
        forall|i: int| 0 <= i < procs.len() ==> #[trigger] target_places(procs, None)[i] == i,
{
}

/// The process to watch is recorded, and with every recorded process those that have it as
/// their parent.
pub proof fn law_watched_process_and_its_children_are_recorded(
    procs: Seq<ProcInfo>,
    root: u32,
    t: int,
    child: int,
)
    requires
        distinct_pids(procs),
        can_be_listed(procs, Some(root)),
        0 <= t < procs.len(),
        0 <= child < procs.len(),
    ensures
        procs[t].pid == root ==> target_places(procs, Some(root)).contains(t),
        target_places(procs, Some(root)).contains(t) && procs[child].parent == Some(procs[t].pid)
            ==> target_places(procs, Some(root)).contains(child),
{
    let tree = tree_of(procs);
    law_the_right_processes_are_recorded(procs, Some(root), t);
    law_the_right_processes_are_recorded(procs, Some(root), child);
    if procs[t].pid == root {
        assert(below_by(tree, root, root, 0));
    }
    if in_family(tree, root, procs[t].pid) && procs[child].parent == Some(procs[t].pid) {
        law_family_holds_the_children_of_its_members(procs, root, procs[t].pid, child);
    }
}

/// No other process is recorded: every group that holds the process to watch, and with each
/// process those that have it as their parent, holds all that are recorded.
pub proof fn law_nobody_else_is_recorded(
    procs: Seq<ProcInfo>,
    root: u32,
    group: Set<u32>,
    t: int,
)
    requires
        distinct_pids(procs),
        can_be_listed(procs, Some(root)),
        group.contains(root),
        forall|i: int|
            0 <= i < procs.len() && (#[trigger] procs[i]).parent is Some && group.contains(
                procs[i].parent->0,
            ) ==> group.contains(procs[i].pid),
        target_places(procs, Some(root)).contains(t),
    ensures
        0 <= t < procs.len(),
        group.contains(procs[t].pid),
{
    law_the_right_processes_are_recorded(procs, Some(root), t);
    law_family_is_the_smallest_such_group(procs, root, group, procs[t].pid);
}

/// A tick can be planned where the processes can be numbered so that each has a smaller
/// number than its parent, whichever process is watched.
pub proof fn law_ordered_processes_can_be_listed(
    procs: Seq<ProcInfo>,
    number: spec_fn(u32) -> nat,
    pid: Option<u32>,
)
    requires
        forall|i: int|
            0 <= i < procs.len() && (#[trigger] procs[i]).parent is Some ==> number(procs[i].pid)
                < number(procs[i].parent->0),
    ensures
        can_be_listed(procs, pid),
{
    if let Some(root) = pid {
        law_ordered_processes_have_finite_families(procs, number, root);
    }
}

/// A process is found at the first place where it stands.
pub proof fn law_first_place_is_found(procs: Seq<ProcInfo>, pid: u32, i: int)
    requires
        0 <= i < procs.len(),
        procs[i].pid == pid,
        forall|j: int| 0 <= j < i ==> (#[trigger] procs[j]).pid != pid,
    ensures
        place_of(procs, pid) == Some(i),
{
    let front = procs.take(i + 1);
    let before = procs.take(i);
    assert(front.drop_last() =~= before);
    lemma_place_of(before, pid);
    if let Some(j) = place_of(before, pid) {
        assert(before[j] == procs[j]);
    }
    assert(place_of(front, pid) == Some(i));
    lemma_place_in_front(procs, pid, i + 1);
}

/// Places are the same numbers, whichever type they have.
pub proof fn law_places_stand_as_given(list: Seq<usize>, k: int)
    requires
        0 <= k < list.len(),
    ensures
        as_places(list).len() == list.len(),
        as_places(list)[k] == list[k],
{
}

} // verus!
