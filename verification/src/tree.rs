//! The process tree: who is whose child, and who descends from a given process.

use std::collections::{HashMap, HashSet};

use vstd::prelude::*;

use crate::process::ProcInfo;

verus! {

/// The child lists of a map from parents to children.
pub open spec fn child_lists(map: Map<u32, Vec<u32>>) -> Map<u32, Seq<u32>> {
    map.map_values(|list: Vec<u32>| list@)
}

/// The children of `pid`: none where the tree has no list for it.
pub open spec fn kids(tree: Map<u32, Seq<u32>>, pid: u32) -> Seq<u32> {
    if tree.contains_key(pid) {
        tree[pid]
    } else {
        Seq::empty()
    }
}

/// `x` stands `steps` generations below `pid`.
pub open spec fn below_by(tree: Map<u32, Seq<u32>>, pid: u32, x: u32, steps: nat) -> bool
    decreases steps,
{
    if steps == 0 {
        pid == x
    } else {
        exists|i: int|
            0 <= i < kids(tree, pid).len() && below_by(
                tree,
                #[trigger] kids(tree, pid)[i],
                x,
                (steps - 1) as nat,
            )
    }
}

/// `x` is `pid` or a descendant of it.
pub open spec fn in_family(tree: Map<u32, Seq<u32>>, pid: u32, x: u32) -> bool {
    exists|steps: nat| below_by(tree, pid, x, steps)
}

/// Somebody stands `steps` generations below `pid`.
pub open spec fn has_generation(tree: Map<u32, Seq<u32>>, pid: u32, steps: nat) -> bool
    decreases steps,
{
    steps == 0 || exists|i: int|
        0 <= i < kids(tree, pid).len() && has_generation(
            tree,
            #[trigger] kids(tree, pid)[i],
            (steps - 1) as nat,
        )
}

/// The family of `pid` has a last generation: nobody in it descends from itself.
pub open spec fn family_ends(tree: Map<u32, Seq<u32>>, pid: u32) -> bool {
    exists|steps: nat| !has_generation(tree, pid, steps)
}

/// A number of generations that the family of `pid` does not reach.
pub open spec fn generations(tree: Map<u32, Seq<u32>>, pid: u32) -> nat {
    choose|steps: nat| !has_generation(tree, pid, steps)
}

/// The descendants of `pid`, up to `depth` generations down: first its children, then
/// what is below each of them, the last child first.
pub open spec fn descendants(tree: Map<u32, Seq<u32>>, pid: u32, depth: nat) -> Seq<u32>
    decreases depth, 0nat, 0nat,
{
    if depth == 0 {
        Seq::empty()
    } else {
        kids(tree, pid) + descendants_of_all(tree, kids(tree, pid), (depth - 1) as nat)
    }
}

/// The descendants of each of `pids`, the last one's first.
pub open spec fn descendants_of_all(tree: Map<u32, Seq<u32>>, pids: Seq<u32>, depth: nat) -> Seq<
    u32,
>
    decreases depth, 1nat, pids.len(),
{
    if pids.len() == 0 {
        Seq::empty()
    } else {
        descendants(tree, pids.last(), depth) + descendants_of_all(tree, pids.drop_last(), depth)
    }
}

/// `pid` and all its descendants, in the order in which they are visited.
pub open spec fn family(tree: Map<u32, Seq<u32>>, pid: u32) -> Seq<u32> {
    seq![pid] + descendants(tree, pid, generations(tree, pid))
}

/// Nobody is listed twice as a child.
pub open spec fn one_parent_each(tree: Map<u32, Seq<u32>>) -> bool {
    forall|p: u32, i: int, q: u32, j: int|
        0 <= i < kids(tree, p).len() && 0 <= j < kids(tree, q).len() && (#[trigger] kids(
            tree,
            p,
        )[i]) == (#[trigger] kids(tree, q)[j]) ==> p == q && i == j
}

proof fn lemma_generation_monotone(tree: Map<u32, Seq<u32>>, pid: u32, fewer: nat, more: nat)
    requires
        fewer <= more,
        !has_generation(tree, pid, fewer),
    ensures
        !has_generation(tree, pid, more),
    decreases more,
{
    if has_generation(tree, pid, more) {
        let i = choose|i: int|
            0 <= i < kids(tree, pid).len() && has_generation(
                tree,
                #[trigger] kids(tree, pid)[i],
                (more - 1) as nat,
            );
        assert(!has_generation(tree, kids(tree, pid)[i], (fewer - 1) as nat));
        lemma_generation_monotone(
            tree,
            kids(tree, pid)[i],
            (fewer - 1) as nat,
            (more - 1) as nat,
        );
    }
}

/// Beyond the last generation, the depth makes no difference.
proof fn lemma_depth_is_enough(tree: Map<u32, Seq<u32>>, pid: u32, fewer: nat, more: nat)
    requires
        fewer <= more,
        !has_generation(tree, pid, fewer),
    ensures
        descendants(tree, pid, fewer) == descendants(tree, pid, more),
    decreases fewer, 0nat, 0nat,
{
    let ks = kids(tree, pid);
    assert forall|i: int| 0 <= i < ks.len() implies !has_generation(
        tree,
        #[trigger] ks[i],
        (fewer - 1) as nat,
    ) by {}
    lemma_depth_is_enough_for_all(tree, ks, (fewer - 1) as nat, (more - 1) as nat);
}

proof fn lemma_depth_is_enough_for_all(
    tree: Map<u32, Seq<u32>>,
    pids: Seq<u32>,
    fewer: nat,
    more: nat,
)
    requires
        fewer <= more,
        forall|i: int| 0 <= i < pids.len() ==> !has_generation(tree, #[trigger] pids[i], fewer),
    ensures
        descendants_of_all(tree, pids, fewer) == descendants_of_all(tree, pids, more),
    decreases fewer, 1nat, pids.len(),
{
    if pids.len() > 0 {
        assert(!has_generation(tree, pids[pids.len() - 1], fewer));
        lemma_depth_is_enough(tree, pids.last(), fewer, more);
        assert forall|i: int| 0 <= i < pids.drop_last().len() implies !has_generation(
            tree,
            #[trigger] pids.drop_last()[i],
            fewer,
        ) by {
            assert(!has_generation(tree, pids[i], fewer));
        }
        lemma_depth_is_enough_for_all(tree, pids.drop_last(), fewer, more);
    }
}

proof fn lemma_all_of_concat(
    tree: Map<u32, Seq<u32>>,
    first: Seq<u32>,
    second: Seq<u32>,
    depth: nat,
)
    ensures
        descendants_of_all(tree, first + second, depth) == descendants_of_all(tree, second, depth)
            + descendants_of_all(tree, first, depth),
    decreases second.len(),
{
    let both = first + second;
    if second.len() == 0 {
        assert(both =~= first);
        assert(Seq::<u32>::empty() + descendants_of_all(tree, first, depth)
            =~= descendants_of_all(tree, first, depth));
    } else {
        assert(both.drop_last() =~= first + second.drop_last());
        assert(both.last() == second.last());
        lemma_all_of_concat(tree, first, second.drop_last(), depth);
        let head = descendants(tree, second.last(), depth);
        assert(head + (descendants_of_all(tree, second.drop_last(), depth) + descendants_of_all(
            tree,
            first,
            depth,
        )) =~= (head + descendants_of_all(tree, second.drop_last(), depth)) + descendants_of_all(
            tree,
            first,
            depth,
        ));
    }
}

/// `root` and its descendants: each process that is taken off the list of those still
/// to be visited adds its children to the result and to that list.
pub fn reachable_pids(root: u32, children_map: &HashMap<u32, Vec<u32>>) -> (result: Vec<u32>)
    requires
        family_ends(child_lists(children_map@), root),
    ensures
        result@ == family(child_lists(children_map@), root),
        forall|x: u32| #[trigger]
            result@.contains(x) <==> in_family(child_lists(children_map@), root, x),
{
    let ghost tree = child_lists(children_map@);
    let ghost depth = generations(tree, root);
    let mut result: Vec<u32> = Vec::new();
    result.push(root);
    let mut queue: Vec<u32> = Vec::new();
    queue.push(root);
    proof {
        reveal_with_fuel(descendants_of_all, 2);
        assert(queue@.drop_last() =~= Seq::<u32>::empty());
        assert(descendants_of_all(tree, queue@, depth) =~= descendants(tree, root, depth));
    }
    while queue.len() > 0
        invariant
            tree == child_lists(children_map@),
            depth == generations(tree, root),
            forall|i: int|
                0 <= i < queue@.len() ==> !has_generation(tree, #[trigger] queue@[i], depth),
            family(tree, root) == result@ + descendants_of_all(tree, queue@, depth),
        decreases descendants_of_all(tree, queue@, depth).len() + queue@.len(),
    {
        let ghost before = queue@;
        let ghost listed = result@;
        let p: u32 = queue.pop().unwrap();
        let ghost rest = queue@;
        let ghost ks = kids(tree, p);
        assert(rest =~= before.drop_last());
        assert(!has_generation(tree, before[before.len() - 1], depth));
        assert(depth > 0);
        if let Some(list) = children_map.get(&p) {
            assert(list@ == ks);
            let mut i: usize = 0;
            while i < list.len()
                invariant
                    i <= list.len(),
                    list@ == ks,
                    result@ == listed + ks.take(i as int),
                    queue@ == rest + ks.take(i as int),
                decreases list.len() - i,
            {
                let k: u32 = list[i];
                result.push(k);
                queue.push(k);
                i = i + 1;
                assert(ks.take(i as int) =~= ks.take(i - 1).push(k));
                assert(result@ =~= listed + ks.take(i as int));
                assert(queue@ =~= rest + ks.take(i as int));
            }
            assert(ks.take(i as int) =~= ks);
        } else {
            assert(listed + ks =~= listed);
            assert(rest + ks =~= rest);
        }
        assert(result@ == listed + ks && queue@ == rest + ks);
        proof {
            assert forall|i: int| 0 <= i < ks.len() implies !has_generation(
                tree,
                #[trigger] ks[i],
                (depth - 1) as nat,
            ) by {}
            lemma_depth_is_enough_for_all(tree, ks, (depth - 1) as nat, depth);
            lemma_all_of_concat(tree, rest, ks, depth);
            let below = descendants_of_all(tree, ks, depth);
            let others = descendants_of_all(tree, rest, depth);
            assert(descendants(tree, p, depth) == ks + below);
            assert(descendants_of_all(tree, before, depth) == (ks + below) + others);
            assert(listed + ((ks + below) + others) =~= (listed + ks) + (below + others));
            assert forall|i: int| 0 <= i < queue@.len() implies !has_generation(
                tree,
                #[trigger] queue@[i],
                depth,
            ) by {
                if i < rest.len() {
                    assert(!has_generation(tree, before[i], depth));
                } else {
                    let k = ks[i - rest.len()];
                    assert(!has_generation(tree, k, (depth - 1) as nat));
                    lemma_generation_monotone(tree, k, (depth - 1) as nat, depth);
                }
            }
        }
    }
    proof {
        assert(queue@ =~= Seq::<u32>::empty());
        assert(result@ =~= family(tree, root));
        assert forall|x: u32| #[trigger] result@.contains(x) <==> in_family(tree, root, x) by {
            law_family_is_the_descendants(tree, root, x);
        }
    }
    result
}

/// A process stands in the family of `pid` exactly when it is `pid` or descends from it.
pub proof fn law_family_is_the_descendants(tree: Map<u32, Seq<u32>>, pid: u32, x: u32)
    requires
        family_ends(tree, pid),
    ensures
        family(tree, pid).contains(x) <==> in_family(tree, pid, x),
{
    let depth = generations(tree, pid);
    let below = descendants(tree, pid, depth);
    let all = family(tree, pid);
    if all.contains(x) {
        let i = choose|i: int| 0 <= i < all.len() && all[i] == x;
        if i == 0 {
            assert(below_by(tree, pid, x, 0));
        } else {
            assert(below[i - 1] == x);
            lemma_listed_is_below(tree, pid, depth, x);
        }
    }
    if in_family(tree, pid, x) {
        let steps = choose|steps: nat| below_by(tree, pid, x, steps);
        if steps == 0 {
            assert(all[0] == x);
        } else {
            lemma_below_is_listed(tree, pid, depth, x, steps);
            let j = choose|j: int| 0 <= j < below.len() && below[j] == x;
            assert(all[j + 1] == x);
        }
    }
}

/// What is listed below `pid` stands at least one generation below it.
proof fn lemma_listed_is_below(tree: Map<u32, Seq<u32>>, pid: u32, depth: nat, x: u32)
    requires
        descendants(tree, pid, depth).contains(x),
    ensures
        exists|steps: nat| steps >= 1 && #[trigger] below_by(tree, pid, x, steps),
    decreases depth, 0nat, 0nat,
{
    let ks = kids(tree, pid);
    let all = descendants(tree, pid, depth);
    let i = choose|i: int| 0 <= i < all.len() && all[i] == x;
    if i < ks.len() {
        assert(ks[i] == x);
        assert(below_by(tree, ks[i], x, 0));
        assert(below_by(tree, pid, x, 1));
    } else {
        let rest = descendants_of_all(tree, ks, (depth - 1) as nat);
        assert(rest[i - ks.len()] == x);
        assert(rest.contains(x));
        let (k, steps) = lemma_listed_is_below_one(tree, ks, (depth - 1) as nat, x);
        assert(below_by(tree, ks[k], x, steps));
        assert(below_by(tree, pid, x, steps + 1));
    }
}

proof fn lemma_listed_is_below_one(
    tree: Map<u32, Seq<u32>>,
    pids: Seq<u32>,
    depth: nat,
    x: u32,
) -> (which: (int, nat))
    requires
        descendants_of_all(tree, pids, depth).contains(x),
    ensures
        0 <= which.0 < pids.len(),
        which.1 >= 1,
        below_by(tree, pids[which.0], x, which.1),
        descendants(tree, pids[which.0], depth).contains(x),
    decreases depth, 1nat, pids.len(),
{
    let head = descendants(tree, pids.last(), depth);
    let rest = descendants_of_all(tree, pids.drop_last(), depth);
    let all = descendants_of_all(tree, pids, depth);
    let i = choose|i: int| 0 <= i < all.len() && all[i] == x;
    if i < head.len() {
        assert(head[i] == x);
        lemma_listed_is_below(tree, pids.last(), depth, x);
        let steps = choose|steps: nat| steps >= 1 && #[trigger] below_by(tree, pids.last(), x, steps);
        (pids.len() - 1, steps)
    } else {
        assert(rest[i - head.len()] == x);
        assert(rest.contains(x));
        lemma_listed_is_below_one(tree, pids.drop_last(), depth, x)
    }
}

/// Whoever stands below `pid`, no deeper than the list goes, is listed.
proof fn lemma_below_is_listed(tree: Map<u32, Seq<u32>>, pid: u32, depth: nat, x: u32, steps: nat)
    requires
        !has_generation(tree, pid, depth),
        steps >= 1,
        below_by(tree, pid, x, steps),
    ensures
        descendants(tree, pid, depth).contains(x),
    decreases steps,
{
    let ks = kids(tree, pid);
    let all = descendants(tree, pid, depth);
    let i = choose|i: int|
        0 <= i < ks.len() && below_by(tree, #[trigger] ks[i], x, (steps - 1) as nat);
    assert(depth > 0);
    assert(!has_generation(tree, ks[i], (depth - 1) as nat));
    if steps == 1 {
        assert(all[i] == x);
    } else {
        lemma_below_is_listed(tree, ks[i], (depth - 1) as nat, x, (steps - 1) as nat);
        lemma_one_is_in_all(tree, ks, (depth - 1) as nat, i, x);
        let rest = descendants_of_all(tree, ks, (depth - 1) as nat);
        let j = choose|j: int| 0 <= j < rest.len() && rest[j] == x;
        assert(all[ks.len() + j] == x);
    }
}

proof fn lemma_one_is_in_all(
    tree: Map<u32, Seq<u32>>,
    pids: Seq<u32>,
    depth: nat,
    i: int,
    x: u32,
)
    requires
        0 <= i < pids.len(),
        descendants(tree, pids[i], depth).contains(x),
    ensures
        descendants_of_all(tree, pids, depth).contains(x),
    decreases pids.len(),
{
    let head = descendants(tree, pids.last(), depth);
    let rest = descendants_of_all(tree, pids.drop_last(), depth);
    let all = descendants_of_all(tree, pids, depth);
    if i == pids.len() - 1 {
        let j = choose|j: int| 0 <= j < head.len() && head[j] == x;
        assert(all[j] == x);
    } else {
        assert(pids.drop_last()[i] == pids[i]);
        lemma_one_is_in_all(tree, pids.drop_last(), depth, i, x);
        let j = choose|j: int| 0 <= j < rest.len() && rest[j] == x;
        assert(all[head.len() + j] == x);
    }
}

/// The children of `parent` among `procs`, in the order in which they stand there.
pub open spec fn children_of(procs: Seq<ProcInfo>, parent: u32) -> Seq<u32>
    decreases procs.len(),
{
    if procs.len() == 0 {
        Seq::empty()
    } else if procs.last().parent == Some(parent) {
        children_of(procs.drop_last(), parent).push(procs.last().pid)
    } else {
        children_of(procs.drop_last(), parent)
    }
}

/// The children of every process that has any.
pub open spec fn tree_of(procs: Seq<ProcInfo>) -> Map<u32, Seq<u32>> {
    Map::new(|p: u32| children_of(procs, p).len() > 0, |p: u32| children_of(procs, p))
}

/// `tree` lists for every parent among `procs` its children, and nothing else.
spec fn is_tree_of(tree: Map<u32, Seq<u32>>, procs: Seq<ProcInfo>) -> bool {
    forall|p: u32|
        {
            &&& #[trigger] kids(tree, p) == children_of(procs, p)
            &&& tree.contains_key(p) <==> children_of(procs, p).len() > 0
        }
}

/// The map from each parent to its children.
pub fn build_children_map(procs: &Vec<ProcInfo>) -> (map: HashMap<u32, Vec<u32>>)
    ensures
        child_lists(map@) == tree_of(procs@),
        forall|parent: u32, pid: u32| #[trigger]
            kids(child_lists(map@), parent).contains(pid) <==> exists|i: int|
                0 <= i < procs@.len() && (#[trigger] procs@[i]).pid == pid && procs@[i].parent
                    == Some(parent),
{
    let mut map: HashMap<u32, Vec<u32>> = HashMap::new();
    let mut i: usize = 0;
    while i < procs.len()
        invariant
            i <= procs.len(),
            is_tree_of(child_lists(map@), procs@.take(i as int)),
        decreases procs.len() - i,
    {
        let ghost before = child_lists(map@);
        let ghost seen = procs@.take(i as int);
        let ghost more = procs@.take(i + 1);
        assert(more.drop_last() =~= seen);
        assert(more.last() == procs@[i as int]);
        if let Some(parent) = procs[i].parent {
            let list = map.entry(parent).or_insert(Vec::new());
            list.push(procs[i].pid);
            assert forall|p: u32|
                {
                    &&& #[trigger] kids(child_lists(map@), p) == children_of(more, p)
                    &&& child_lists(map@).contains_key(p) <==> children_of(more, p).len() > 0
                } by {
                assert(kids(before, p) == children_of(seen, p));
                assert(kids(before, parent) == children_of(seen, parent));
                assert(kids(child_lists(map@), p) =~= children_of(more, p));
            }
        } else {
            assert forall|p: u32|
                {
                    &&& #[trigger] kids(child_lists(map@), p) == children_of(more, p)
                    &&& child_lists(map@).contains_key(p) <==> children_of(more, p).len() > 0
                } by {
                assert(kids(before, p) == children_of(seen, p));
            }
            assert(is_tree_of(child_lists(map@), more));
        }
        assert(is_tree_of(child_lists(map@), more));
        i = i + 1;
    }
    assert(procs@.take(i as int) =~= procs@);
    proof {
        lemma_tree_is_unique(child_lists(map@), procs@);
        assert forall|parent: u32, pid: u32| #[trigger]
            kids(child_lists(map@), parent).contains(pid) <==> exists|i: int|
                0 <= i < procs@.len() && (#[trigger] procs@[i]).pid == pid && procs@[i].parent
                    == Some(parent) by {
            law_children_are_those_with_that_parent(procs@, parent, pid);
        }
    }
    map
}

proof fn lemma_tree_is_unique(tree: Map<u32, Seq<u32>>, procs: Seq<ProcInfo>)
    requires
        is_tree_of(tree, procs),
    ensures
        tree == tree_of(procs),
{
    assert forall|p: u32| tree.contains_key(p) == tree_of(procs).contains_key(p) by {
        assert(kids(tree, p) == children_of(procs, p));
    }
    assert forall|p: u32| tree.contains_key(p) implies tree[p] == tree_of(procs)[p] by {
        assert(kids(tree, p) == children_of(procs, p));
    }
    assert(tree =~= tree_of(procs));
}

proof fn lemma_tree_lists_children(procs: Seq<ProcInfo>, parent: u32)
    ensures
        kids(tree_of(procs), parent) == children_of(procs, parent),
{
    assert(kids(tree_of(procs), parent) =~= children_of(procs, parent));
}

/// Going down `upper` and then `lower` generations is going down both together.
proof fn lemma_below_twice(
    tree: Map<u32, Seq<u32>>,
    a: u32,
    b: u32,
    c: u32,
    upper: nat,
    lower: nat,
)
    requires
        below_by(tree, a, b, upper),
        below_by(tree, b, c, lower),
    ensures
        below_by(tree, a, c, upper + lower),
    decreases upper,
{
    if upper > 0 {
        let ks = kids(tree, a);
        let i = choose|i: int|
            0 <= i < ks.len() && below_by(tree, #[trigger] ks[i], b, (upper - 1) as nat);
        lemma_below_twice(tree, ks[i], b, c, (upper - 1) as nat, lower);
        assert(below_by(tree, ks[i], c, (upper + lower - 1) as nat));
    }
}

/// Whoever stands below `pid` has a parent one generation higher up.
proof fn lemma_last_step(tree: Map<u32, Seq<u32>>, pid: u32, x: u32, steps: nat) -> (parent: u32)
    requires
        steps >= 1,
        below_by(tree, pid, x, steps),
    ensures
        below_by(tree, pid, parent, (steps - 1) as nat),
        kids(tree, parent).contains(x),
    decreases steps,
{
    let ks = kids(tree, pid);
    let i = choose|i: int|
        0 <= i < ks.len() && below_by(tree, #[trigger] ks[i], x, (steps - 1) as nat);
    if steps == 1 {
        assert(ks[i] == x);
        pid
    } else {
        let parent = lemma_last_step(tree, ks[i], x, (steps - 1) as nat);
        assert(below_by(tree, ks[i], parent, (steps - 2) as nat));
        parent
    }
}

proof fn lemma_child_is_below(tree: Map<u32, Seq<u32>>, pid: u32, x: u32)
    requires
        kids(tree, pid).contains(x),
    ensures
        below_by(tree, pid, x, 1),
{
    let i = choose|i: int| 0 <= i < kids(tree, pid).len() && kids(tree, pid)[i] == x;
    assert(below_by(tree, kids(tree, pid)[i], x, 0));
}

proof fn lemma_generation_below(
    tree: Map<u32, Seq<u32>>,
    pid: u32,
    x: u32,
    steps: nat,
    more: nat,
)
    requires
        below_by(tree, pid, x, steps),
        has_generation(tree, x, more),
    ensures
        has_generation(tree, pid, steps + more),
    decreases steps,
{
    if steps > 0 {
        let ks = kids(tree, pid);
        let i = choose|i: int|
            0 <= i < ks.len() && below_by(tree, #[trigger] ks[i], x, (steps - 1) as nat);
        lemma_generation_below(tree, ks[i], x, (steps - 1) as nat, more);
        assert(has_generation(tree, ks[i], (steps + more - 1) as nat));
    }
}

/// Whoever descends from itself has descendants in every generation.
proof fn lemma_cycle_never_ends(tree: Map<u32, Seq<u32>>, pid: u32, steps: nat, n: nat)
    requires
        steps >= 1,
        below_by(tree, pid, pid, steps),
    ensures
        has_generation(tree, pid, n),
    decreases n,
{
    if n > 0 {
        lemma_cycle_never_ends(tree, pid, steps, (n - 1) as nat);
        lemma_generation_below(tree, pid, pid, steps, (n - 1) as nat);
        if !has_generation(tree, pid, n) {
            lemma_generation_monotone(tree, pid, n, (steps + n - 1) as nat);
        }
    }
}

proof fn lemma_no_cycle(tree: Map<u32, Seq<u32>>, pid: u32, steps: nat)
    requires
        family_ends(tree, pid),
        steps >= 1,
    ensures
        !below_by(tree, pid, pid, steps),
{
    if below_by(tree, pid, pid, steps) {
        lemma_cycle_never_ends(tree, pid, steps, generations(tree, pid));
    }
}

/// Two ancestors of one process: the nearer one descends from the farther one.
proof fn lemma_walk_up(
    tree: Map<u32, Seq<u32>>,
    near: u32,
    far: u32,
    x: u32,
    fewer: nat,
    more: nat,
)
    requires
        one_parent_each(tree),
        fewer <= more,
        below_by(tree, near, x, fewer),
        below_by(tree, far, x, more),
    ensures
        below_by(tree, far, near, (more - fewer) as nat),
    decreases fewer,
{
    if fewer > 0 {
        let p = lemma_last_step(tree, near, x, fewer);
        let q = lemma_last_step(tree, far, x, more);
        let i = choose|i: int| 0 <= i < kids(tree, p).len() && kids(tree, p)[i] == x;
        let j = choose|j: int| 0 <= j < kids(tree, q).len() && kids(tree, q)[j] == x;
        assert(kids(tree, p)[i] == kids(tree, q)[j]);
        lemma_walk_up(tree, near, far, p, (fewer - 1) as nat, (more - 1) as nat);
    }
}

/// A child of `pid` does not descend from a child of `pid`.
proof fn lemma_siblings_apart(tree: Map<u32, Seq<u32>>, pid: u32, i: int, j: int, steps: nat)
    requires
        one_parent_each(tree),
        family_ends(tree, pid),
        0 <= i < kids(tree, pid).len(),
        0 <= j < kids(tree, pid).len(),
        steps >= 1,
    ensures
        !below_by(tree, kids(tree, pid)[j], kids(tree, pid)[i], steps),
{
    let ks = kids(tree, pid);
    if below_by(tree, ks[j], ks[i], steps) {
        let p = lemma_last_step(tree, ks[j], ks[i], steps);
        let k = choose|k: int| 0 <= k < kids(tree, p).len() && kids(tree, p)[k] == ks[i];
        assert(kids(tree, p)[k] == kids(tree, pid)[i]);
        assert(p == pid);
        assert(ks.contains(ks[j]));
        lemma_child_is_below(tree, pid, ks[j]);
        lemma_below_twice(tree, pid, ks[j], pid, 1, (steps - 1) as nat);
        lemma_no_cycle(tree, pid, steps);
    }
}

/// Two children of `pid` have no descendant in common.
proof fn lemma_families_apart(
    tree: Map<u32, Seq<u32>>,
    pid: u32,
    i: int,
    j: int,
    depth: nat,
    x: u32,
)
    requires
        one_parent_each(tree),
        family_ends(tree, pid),
        0 <= i < kids(tree, pid).len(),
        0 <= j < kids(tree, pid).len(),
        i != j,
        descendants(tree, kids(tree, pid)[i], depth).contains(x),
    ensures
        !descendants(tree, kids(tree, pid)[j], depth).contains(x),
{
    let ks = kids(tree, pid);
    if descendants(tree, ks[j], depth).contains(x) {
        lemma_listed_is_below(tree, ks[i], depth, x);
        lemma_listed_is_below(tree, ks[j], depth, x);
        let a = choose|a: nat| a >= 1 && #[trigger] below_by(tree, ks[i], x, a);
        let b = choose|b: nat| b >= 1 && #[trigger] below_by(tree, ks[j], x, b);
        assert(kids(tree, pid)[i] != kids(tree, pid)[j]);
        if a <= b {
            lemma_walk_up(tree, ks[i], ks[j], x, a, b);
            if a < b {
                lemma_siblings_apart(tree, pid, i, j, (b - a) as nat);
            }
        } else {
            lemma_walk_up(tree, ks[j], ks[i], x, b, a);
            lemma_siblings_apart(tree, pid, j, i, (a - b) as nat);
        }
    }
}

proof fn lemma_child_family_ends(tree: Map<u32, Seq<u32>>, pid: u32, i: int)
    requires
        family_ends(tree, pid),
        0 <= i < kids(tree, pid).len(),
    ensures
        family_ends(tree, kids(tree, pid)[i]),
{
    let depth = generations(tree, pid);
    assert(!has_generation(tree, kids(tree, pid)[i], (depth - 1) as nat));
}

proof fn lemma_descendants_listed_once(tree: Map<u32, Seq<u32>>, pid: u32, depth: nat)
    requires
        one_parent_each(tree),
        family_ends(tree, pid),
    ensures
        descendants(tree, pid, depth).no_duplicates(),
    decreases depth, 0nat, 0nat,
{
    if depth > 0 {
        let ks = kids(tree, pid);
        let rest = descendants_of_all(tree, ks, (depth - 1) as nat);
        let all = descendants(tree, pid, depth);
        assert(ks.no_duplicates()) by {
            assert forall|i: int, j: int|
                0 <= i < ks.len() && 0 <= j < ks.len() && i != j implies ks[i] != ks[j] by {
                assert(kids(tree, pid)[i] == ks[i] && kids(tree, pid)[j] == ks[j]);
            }
        }
        assert(ks.take(ks.len() as int) =~= ks);
        lemma_children_listed_once(tree, pid, ks.len() as int, (depth - 1) as nat);
        assert forall|i: int, j: int|
            0 <= i < ks.len() && ks.len() <= j < all.len() implies all[i] != all[j] by {
            let x = rest[j - ks.len()];
            assert(rest.contains(x));
            let (k, steps) = lemma_listed_is_below_one(tree, ks, (depth - 1) as nat, x);
            lemma_siblings_apart(tree, pid, i, k, steps);
        }
        assert forall|i: int, j: int|
            0 <= i < all.len() && 0 <= j < all.len() && i != j implies all[i] != all[j] by {
            if i >= ks.len() && j >= ks.len() {
                assert(all[i] == rest[i - ks.len()] && all[j] == rest[j - ks.len()]);
            } else if i < ks.len() && j < ks.len() {
                assert(all[i] == ks[i] && all[j] == ks[j]);
            }
        }
    }
}

proof fn lemma_children_listed_once(tree: Map<u32, Seq<u32>>, pid: u32, n: int, depth: nat)
    requires
        one_parent_each(tree),
        family_ends(tree, pid),
        0 <= n <= kids(tree, pid).len(),
    ensures
        descendants_of_all(tree, kids(tree, pid).take(n), depth).no_duplicates(),
    decreases depth, 1nat, n,
{
    let ks = kids(tree, pid);
    let some = ks.take(n);
    if n > 0 {
        assert(some.drop_last() =~= ks.take(n - 1));
        let head = descendants(tree, ks[n - 1], depth);
        let rest = descendants_of_all(tree, ks.take(n - 1), depth);
        let all = descendants_of_all(tree, some, depth);
        assert(all == head + rest);
        lemma_child_family_ends(tree, pid, n - 1);
        lemma_descendants_listed_once(tree, ks[n - 1], depth);
        lemma_children_listed_once(tree, pid, n - 1, depth);
        assert forall|i: int, j: int|
            0 <= i < head.len() && head.len() <= j < all.len() implies all[i] != all[j] by {
            let x = rest[j - head.len()];
            assert(rest.contains(x));
            let (k, steps) = lemma_listed_is_below_one(tree, ks.take(n - 1), depth, x);
            lemma_families_apart(tree, pid, k, n - 1, depth, x);
            assert(head.contains(head[i]));
        }
        assert forall|i: int, j: int|
            0 <= i < all.len() && 0 <= j < all.len() && i != j implies all[i] != all[j] by {
            if i >= head.len() && j >= head.len() {
                assert(all[i] == rest[i - head.len()] && all[j] == rest[j - head.len()]);
            } else if i < head.len() && j < head.len() {
                assert(all[i] == head[i] && all[j] == head[j]);
            }
        }
    }
}

/// Where nobody has two parents, a family lists each of its processes once.
pub proof fn law_family_lists_each_once(tree: Map<u32, Seq<u32>>, pid: u32)
    requires
        one_parent_each(tree),
        family_ends(tree, pid),
    ensures
        family(tree, pid).no_duplicates(),
{
    let depth = generations(tree, pid);
    let below = descendants(tree, pid, depth);
    let all = family(tree, pid);
    lemma_descendants_listed_once(tree, pid, depth);
    assert forall|i: int, j: int|
        0 <= i < all.len() && 0 <= j < all.len() && i != j implies all[i] != all[j] by {
        if i == 0 || j == 0 {
            let k = if i == 0 {
                j
            } else {
                i
            };
            assert(below[k - 1] == all[k]);
            assert(below.contains(all[k]));
            lemma_listed_is_below(tree, pid, depth, all[k]);
            let steps = choose|steps: nat| steps >= 1 && #[trigger] below_by(tree, pid, all[k], steps);
            lemma_no_cycle(tree, pid, steps);
        } else {
            assert(all[i] == below[i - 1] && all[j] == below[j - 1]);
        }
    }
}

/// No two of the processes have the same id.
pub open spec fn distinct_pids(procs: Seq<ProcInfo>) -> bool {
    forall|i: int, j: int|
        0 <= i < procs.len() && 0 <= j < procs.len() && i != j ==> (#[trigger] procs[i]).pid != (
        #[trigger] procs[j]).pid
}

/// The places in `procs` of the children of `parent`.
spec fn child_places(procs: Seq<ProcInfo>, parent: u32) -> Seq<int>
    decreases procs.len(),
{
    if procs.len() == 0 {
        Seq::empty()
    } else if procs.last().parent == Some(parent) {
        child_places(procs.drop_last(), parent).push(procs.len() - 1)
    } else {
        child_places(procs.drop_last(), parent)
    }
}

proof fn lemma_child_places(procs: Seq<ProcInfo>, parent: u32)
    ensures
        child_places(procs, parent).len() == children_of(procs, parent).len(),
        forall|i: int|
            0 <= i < child_places(procs, parent).len() ==> {
                let k = #[trigger] child_places(procs, parent)[i];
                &&& 0 <= k < procs.len()
                &&& procs[k].pid == children_of(procs, parent)[i]
                &&& procs[k].parent == Some(parent)
            },
        forall|i: int, j: int|
            0 <= i < j < child_places(procs, parent).len() ==> (#[trigger] child_places(
                procs,
                parent,
            )[i]) < (#[trigger] child_places(procs, parent)[j]),
    decreases procs.len(),
{
    if procs.len() > 0 {
        lemma_child_places(procs.drop_last(), parent);
    }
}

/// In the tree of processes with distinct ids nobody has two parents.
pub proof fn law_tree_has_one_parent_each(procs: Seq<ProcInfo>)
    requires
        distinct_pids(procs),
    ensures
        one_parent_each(tree_of(procs)),
{
    let tree = tree_of(procs);
    assert forall|p: u32, i: int, q: u32, j: int|
        0 <= i < kids(tree, p).len() && 0 <= j < kids(tree, q).len() && (#[trigger] kids(
            tree,
            p,
        )[i]) == (#[trigger] kids(tree, q)[j]) implies p == q && i == j by {
        lemma_tree_lists_children(procs, p);
        lemma_tree_lists_children(procs, q);
        lemma_child_places(procs, p);
        lemma_child_places(procs, q);
        let a = child_places(procs, p)[i];
        let b = child_places(procs, q)[j];
        assert(procs[a].pid == procs[b].pid);
        assert(a == b);
        assert(p == q);
        if i < j {
            assert(child_places(procs, p)[i] < child_places(procs, p)[j]);
        } else if j < i {
            assert(child_places(procs, p)[j] < child_places(procs, p)[i]);
        }
    }
}

/// The children of everybody in `level`, each once.
fn next_generation(level: &Vec<u32>, children_map: &HashMap<u32, Vec<u32>>) -> (next: Vec<u32>)
    ensures
        forall|x: u32| #[trigger]
            next@.contains(x) <==> exists|i: int|
                0 <= i < level@.len() && kids(
                    child_lists(children_map@),
                    #[trigger] level@[i],
                ).contains(x),
{
    let ghost tree = child_lists(children_map@);
    let mut next: Vec<u32> = Vec::new();
    let mut seen: HashSet<u32> = HashSet::new();
    let mut i: usize = 0;
    while i < level.len()
        invariant
            tree == child_lists(children_map@),
            i <= level.len(),
            forall|x: u32| seen@.contains(x) <==> #[trigger] next@.contains(x),
            forall|x: u32| #[trigger]
                next@.contains(x) <==> exists|a: int|
                    0 <= a < i && kids(tree, #[trigger] level@[a]).contains(x),
        decreases level.len() - i,
    {
        let ghost before = next@;
        let p: u32 = level[i];
        let ghost ks = kids(tree, p);
        if let Some(list) = children_map.get(&p) {
            assert(list@ == ks);
            let mut j: usize = 0;
            while j < list.len()
                invariant
                    list@ == ks,
                    j <= list.len(),
                    forall|x: u32| seen@.contains(x) <==> #[trigger] next@.contains(x),
                    forall|x: u32| #[trigger]
                        next@.contains(x) <==> before.contains(x) || ks.take(j as int).contains(x),
                decreases list.len() - j,
            {
                let k: u32 = list[j];
                let ghost so_far = next@;
                proof {
                    lemma_take_one_more(ks, j as int);
                }
                if seen.insert(k) {
                    next.push(k);
                    proof {
                        lemma_push_contains(so_far, k);
                    }
                } else {
                    assert(so_far.contains(k));
                }
                j = j + 1;
            }
            assert(ks.take(j as int) =~= ks);
        }
        assert forall|x: u32| #[trigger]
            next@.contains(x) <==> exists|a: int|
                0 <= a < i + 1 && kids(tree, #[trigger] level@[a]).contains(x) by {
            if next@.contains(x) {
                if before.contains(x) {
                    let a = choose|a: int|
                        0 <= a < i && kids(tree, #[trigger] level@[a]).contains(x);
                    assert(kids(tree, level@[a]).contains(x));
                } else {
                    assert(kids(tree, level@[i as int]).contains(x));
                }
            }
            if exists|a: int| 0 <= a < i + 1 && kids(tree, #[trigger] level@[a]).contains(x) {
                let a = choose|a: int|
                    0 <= a < i + 1 && kids(tree, #[trigger] level@[a]).contains(x);
                if a < i {
                    assert(before.contains(x));
                }
            }
        }
        i = i + 1;
    }
    next
}

proof fn lemma_take_one_more(s: Seq<u32>, n: int)
    requires
        0 <= n < s.len(),
    ensures
        forall|x: u32| #[trigger]
            s.take(n + 1).contains(x) <==> s.take(n).contains(x) || x == s[n],
{
    assert(s.take(n + 1) =~= s.take(n).push(s[n]));
    lemma_push_contains(s.take(n), s[n]);
}

proof fn lemma_push_contains(s: Seq<u32>, k: u32)
    ensures
        forall|x: u32| #[trigger] s.push(k).contains(x) <==> s.contains(x) || x == k,
{
    assert forall|x: u32| #[trigger] s.push(k).contains(x) <==> s.contains(x) || x == k by {
        if s.contains(x) {
            let i = choose|i: int| 0 <= i < s.len() && s[i] == x;
            assert(s.push(k)[i] == x);
        }
        if x == k {
            assert(s.push(k)[s.len() as int] == x);
        }
    }
}

/// There is a generation exactly where somebody stands in it.
proof fn lemma_generation_has_members(tree: Map<u32, Seq<u32>>, pid: u32, steps: nat)
    ensures
        has_generation(tree, pid, steps) <==> exists|x: u32| below_by(tree, pid, x, steps),
    decreases steps,
{
    if steps == 0 {
        assert(below_by(tree, pid, pid, 0));
    } else {
        let ks = kids(tree, pid);
        if has_generation(tree, pid, steps) {
            let i = choose|i: int|
                0 <= i < ks.len() && has_generation(tree, #[trigger] ks[i], (steps - 1) as nat);
            lemma_generation_has_members(tree, ks[i], (steps - 1) as nat);
            let fewer = (steps - 1) as nat;
            let x = choose|x: u32| below_by(tree, ks[i], x, fewer);
            assert(below_by(tree, pid, x, steps));
        }
        if exists|x: u32| below_by(tree, pid, x, steps) {
            let x = choose|x: u32| below_by(tree, pid, x, steps);
            let i = choose|i: int|
                0 <= i < ks.len() && below_by(tree, #[trigger] ks[i], x, (steps - 1) as nat);
            lemma_generation_has_members(tree, ks[i], (steps - 1) as nat);
            assert(has_generation(tree, ks[i], (steps - 1) as nat));
        }
    }
}

/// A line of descent of `steps` generations that starts at `pid`.
proof fn lemma_line_of_descent(tree: Map<u32, Seq<u32>>, pid: u32, steps: nat) -> (line: Seq<u32>)
    requires
        has_generation(tree, pid, steps),
    ensures
        line.len() == steps + 1,
        line[0] == pid,
        forall|i: int|
            0 <= i < steps ==> kids(tree, #[trigger] line[i]).contains(line[i + 1]),
    decreases steps,
{
    if steps == 0 {
        seq![pid]
    } else {
        let ks = kids(tree, pid);
        let i = choose|i: int|
            0 <= i < ks.len() && has_generation(tree, #[trigger] ks[i], (steps - 1) as nat);
        let tail = lemma_line_of_descent(tree, ks[i], (steps - 1) as nat);
        let line = seq![pid] + tail;
        assert forall|j: int| 0 <= j < steps implies kids(tree, #[trigger] line[j]).contains(
            line[j + 1],
        ) by {
            if j == 0 {
                assert(ks.contains(ks[i]));
            } else {
                assert(kids(tree, tail[j - 1]).contains(tail[j]));
            }
        }
        line
    }
}

/// On a line of descent that comes back to where it was, every generation exists.
proof fn lemma_loop_goes_on(tree: Map<u32, Seq<u32>>, line: Seq<u32>, a: int, b: int, k: int, n: nat)
    requires
        0 <= a < b < line.len(),
        line[a] == line[b],
        0 <= k <= b,
        forall|i: int|
            0 <= i < line.len() - 1 ==> kids(tree, #[trigger] line[i]).contains(line[i + 1]),
    ensures
        has_generation(tree, line[k], n),
    decreases n,
{
    if n > 0 {
        let here = if k == b {
            a
        } else {
            k
        };
        lemma_loop_goes_on(tree, line, a, b, here + 1, (n - 1) as nat);
        assert(kids(tree, line[here]).contains(line[here + 1]));
        let ks = kids(tree, line[here]);
        let i = choose|i: int| 0 <= i < ks.len() && ks[i] == line[here + 1];
        assert(has_generation(tree, ks[i], (n - 1) as nat));
    }
}

/// A family with more generations than there are parents never ends.
proof fn lemma_too_many_generations(tree: Map<u32, Seq<u32>>, pid: u32)
    requires
        tree.dom().finite(),
        has_generation(tree, pid, tree.dom().len() + 1),
    ensures
        !family_ends(tree, pid),
{
    let steps = tree.dom().len() + 1;
    let line = lemma_line_of_descent(tree, pid, steps);
    let parents = line.take(steps as int);
    if parents.no_duplicates() {
        parents.unique_seq_to_set();
        assert forall|x: u32| parents.to_set().contains(x) implies tree.dom().contains(x) by {
            let i = choose|i: int| 0 <= i < parents.len() && parents[i] == x;
            assert(kids(tree, line[i]).contains(line[i + 1]));
        }
        assert(parents.to_set().subset_of(tree.dom()));
        vstd::set_lib::lemma_len_subset(parents.to_set(), tree.dom());
        assert(false);
    }
    let (a, b) = choose|a: int, b: int|
        0 <= a < parents.len() && 0 <= b < parents.len() && a != b && parents[a] == parents[b];
    let (lo, hi) = if a < b {
        (a, b)
    } else {
        (b, a)
    };
    assert(line[lo] == line[hi]);
    assert forall|n: nat| has_generation(tree, pid, n) by {
        lemma_loop_goes_on(tree, line, lo, hi, 0, n);
    }
}

/// Whether the family of `root` has a last generation. It has none exactly when it
/// goes through more generations than there are parents.
pub fn family_is_finite(root: u32, children_map: &HashMap<u32, Vec<u32>>) -> (r: bool)
    ensures
        r == family_ends(child_lists(children_map@), root),
{
    let ghost tree = child_lists(children_map@);
    let parents = children_map.len();
    let mut level: Vec<u32> = Vec::new();
    level.push(root);
    let mut depth: usize = 0;
    proof {
        assert(tree.dom() =~= children_map@.dom());
        assert(level@[0] == root);
    }
    while depth < parents
        invariant
            tree == child_lists(children_map@),
            depth <= parents,
            forall|x: u32| #[trigger]
                level@.contains(x) <==> below_by(tree, root, x, depth as nat),
        decreases parents - depth,
    {
        let next = next_generation(&level, children_map);
        proof {
            lemma_generation_step(tree, root, level@, next@, depth as nat);
        }
        level = next;
        depth = depth + 1;
    }
    let last = next_generation(&level, children_map);
    proof {
        lemma_generation_step(tree, root, level@, last@, depth as nat);
        lemma_generation_has_members(tree, root, (depth + 1) as nat);
        if last@.len() == 0 {
            assert(!has_generation(tree, root, (depth + 1) as nat)) by {
                if has_generation(tree, root, (depth + 1) as nat) {
                    let more = (depth + 1) as nat;
                    let x = choose|x: u32| below_by(tree, root, x, more);
                    assert(last@.contains(x));
                }
            }
        } else {
            assert(last@.contains(last@[0]));
            lemma_too_many_generations(tree, root);
        }
    }
    last.len() == 0
}

proof fn lemma_generation_step(
    tree: Map<u32, Seq<u32>>,
    root: u32,
    level: Seq<u32>,
    next: Seq<u32>,
    depth: nat,
)
    requires
        forall|x: u32| #[trigger] level.contains(x) <==> below_by(tree, root, x, depth),
        forall|x: u32| #[trigger]
            next.contains(x) <==> exists|i: int|
                0 <= i < level.len() && kids(tree, #[trigger] level[i]).contains(x),
    ensures
        forall|x: u32| #[trigger] next.contains(x) <==> below_by(tree, root, x, depth + 1),
{
    assert forall|x: u32| #[trigger]
        next.contains(x) <==> below_by(tree, root, x, depth + 1) by {
        if next.contains(x) {
            let i = choose|i: int|
                0 <= i < level.len() && kids(tree, #[trigger] level[i]).contains(x);
            assert(level.contains(level[i]));
            lemma_child_is_below(tree, level[i], x);
            lemma_below_twice(tree, root, level[i], x, depth, 1);
        }
        if below_by(tree, root, x, depth + 1) {
            let y = lemma_last_step(tree, root, x, depth + 1);
            assert(level.contains(y));
            let i = choose|i: int| 0 <= i < level.len() && level[i] == y;
            assert(kids(tree, level[i]).contains(x));
        }
    }
}

/// A process is listed as a child of `parent` exactly where it stands among the processes
/// with that parent. Nothing else about it matters: not its user, its state or its size.
pub proof fn law_children_are_those_with_that_parent(procs: Seq<ProcInfo>, parent: u32, pid: u32)
    ensures
        kids(tree_of(procs), parent).contains(pid) <==> exists|i: int|
            0 <= i < procs.len() && (#[trigger] procs[i]).pid == pid && procs[i].parent == Some(
                parent,
            ),
        tree_of(procs).contains_key(parent) <==> exists|i: int|
            0 <= i < procs.len() && (#[trigger] procs[i]).parent == Some(parent),
    decreases procs.len(),
{
    lemma_tree_lists_children(procs, parent);
    if procs.len() > 0 {
        let fewer = procs.drop_last();
        let last = procs.last();
        law_children_are_those_with_that_parent(fewer, parent, pid);
        lemma_tree_lists_children(fewer, parent);
        lemma_push_contains(children_of(fewer, parent), last.pid);
        assert(procs[procs.len() - 1] == last);
        if exists|i: int|
            0 <= i < fewer.len() && (#[trigger] fewer[i]).pid == pid && fewer[i].parent == Some(
                parent,
            ) {
            let i = choose|i: int|
                0 <= i < fewer.len() && (#[trigger] fewer[i]).pid == pid && fewer[i].parent
                    == Some(parent);
            assert(procs[i] == fewer[i]);
        }
        if exists|i: int|
            0 <= i < procs.len() && (#[trigger] procs[i]).pid == pid && procs[i].parent == Some(
                parent,
            ) {
            let i = choose|i: int|
                0 <= i < procs.len() && (#[trigger] procs[i]).pid == pid && procs[i].parent
                    == Some(parent);
            if i < fewer.len() {
                assert(fewer[i] == procs[i]);
            }
        }
        if exists|i: int| 0 <= i < fewer.len() && (#[trigger] fewer[i]).parent == Some(parent) {
            let i = choose|i: int|
                0 <= i < fewer.len() && (#[trigger] fewer[i]).parent == Some(parent);
            assert(procs[i] == fewer[i]);
        }
        if exists|i: int| 0 <= i < procs.len() && (#[trigger] procs[i]).parent == Some(parent) {
            let i = choose|i: int|
                0 <= i < procs.len() && (#[trigger] procs[i]).parent == Some(parent);
            if i < fewer.len() {
                assert(fewer[i] == procs[i]);
            }
        }
    }
}

/// One more process stands last among the children of its parent, and leaves the children
/// of everybody else as they are.
pub proof fn law_one_more_process_is_one_more_child(
    procs: Seq<ProcInfo>,
    info: ProcInfo,
    parent: u32,
)
    ensures
        info.parent == Some(parent) ==> kids(tree_of(procs.push(info)), parent) == kids(
            tree_of(procs),
            parent,
        ).push(info.pid),
        info.parent != Some(parent) ==> kids(tree_of(procs.push(info)), parent) == kids(
            tree_of(procs),
            parent,
        ),
        kids(tree_of(Seq::empty()), parent).len() == 0,
{
    lemma_tree_lists_children(procs, parent);
    lemma_tree_lists_children(procs.push(info), parent);
    lemma_tree_lists_children(Seq::empty(), parent);
    assert(procs.push(info).drop_last() =~= procs);
}

/// The tree depends on the ids of the processes and of their parents alone.
pub proof fn law_tree_depends_on_ids_alone(one: Seq<ProcInfo>, other: Seq<ProcInfo>)
    requires
        one.len() == other.len(),
        forall|i: int|
            #![trigger one[i]]
            #![trigger other[i]]
            0 <= i < one.len() ==> one[i].pid == other[i].pid && one[i].parent == other[i].parent,
    ensures
        tree_of(one) == tree_of(other),
{
    assert forall|p: u32| children_of(one, p) == children_of(other, p) by {
        lemma_children_depend_on_ids(one, other, p);
    }
    assert(tree_of(one) =~= tree_of(other));
}

proof fn lemma_children_depend_on_ids(one: Seq<ProcInfo>, other: Seq<ProcInfo>, parent: u32)
    requires
        one.len() == other.len(),
        forall|i: int|
            #![trigger one[i]]
            #![trigger other[i]]
            0 <= i < one.len() ==> one[i].pid == other[i].pid && one[i].parent == other[i].parent,
    ensures
        children_of(one, parent) == children_of(other, parent),
    decreases one.len(),
{
    if one.len() > 0 {
        lemma_children_depend_on_ids(one.drop_last(), other.drop_last(), parent);
        assert(one[one.len() - 1].pid == other[one.len() - 1].pid);
    }
}

/// The family of `root` holds `root` itself, and with every process all those that have it
/// as their parent.
pub proof fn law_family_holds_the_children_of_its_members(
    procs: Seq<ProcInfo>,
    root: u32,
    parent: u32,
    i: int,
)
    requires
        0 <= i < procs.len(),
        procs[i].parent == Some(parent),
        in_family(tree_of(procs), root, parent),
    ensures
        in_family(tree_of(procs), root, root),
        in_family(tree_of(procs), root, procs[i].pid),
{
    let tree = tree_of(procs);
    let steps = choose|steps: nat| below_by(tree, root, parent, steps);
    law_children_are_those_with_that_parent(procs, parent, procs[i].pid);
    lemma_child_is_below(tree, parent, procs[i].pid);
    lemma_below_twice(tree, root, parent, procs[i].pid, steps, 1);
    assert(below_by(tree, root, root, 0));
}

/// The family of `root` holds nobody else: every group that holds `root`, and with each
/// process those that have it as their parent, holds the whole family.
pub proof fn law_family_is_the_smallest_such_group(
    procs: Seq<ProcInfo>,
    root: u32,
    group: Set<u32>,
    pid: u32,
)
    requires
        group.contains(root),
        forall|i: int|
            0 <= i < procs.len() && (#[trigger] procs[i]).parent is Some && group.contains(
                procs[i].parent->0,
            ) ==> group.contains(procs[i].pid),
        in_family(tree_of(procs), root, pid),
    ensures
        group.contains(pid),
{
    let steps = choose|steps: nat| below_by(tree_of(procs), root, pid, steps);
    lemma_group_holds_those_below(procs, root, group, pid, steps);
}

proof fn lemma_group_holds_those_below(
    procs: Seq<ProcInfo>,
    root: u32,
    group: Set<u32>,
    pid: u32,
    steps: nat,
)
    requires
        group.contains(root),
        forall|i: int|
            0 <= i < procs.len() && (#[trigger] procs[i]).parent is Some && group.contains(
                procs[i].parent->0,
            ) ==> group.contains(procs[i].pid),
        below_by(tree_of(procs), root, pid, steps),
    ensures
        group.contains(pid),
    decreases steps,
{
    if steps > 0 {
        let tree = tree_of(procs);
        let ks = kids(tree, root);
        let k = choose|k: int|
            0 <= k < ks.len() && below_by(tree, #[trigger] ks[k], pid, (steps - 1) as nat);
        law_children_are_those_with_that_parent(procs, root, ks[k]);
        assert(ks.contains(ks[k]));
        let i = choose|i: int|
            0 <= i < procs.len() && (#[trigger] procs[i]).pid == ks[k] && procs[i].parent == Some(
                root,
            );
        assert(group.contains(procs[i].pid));
        lemma_group_holds_those_below(procs, ks[k], group, pid, (steps - 1) as nat);
    }
}

/// Every family has an end where the processes can be numbered so that each has a smaller
/// number than its parent.
pub proof fn law_ordered_processes_have_finite_families(
    procs: Seq<ProcInfo>,
    number: spec_fn(u32) -> nat,
    root: u32,
)
    requires
        forall|i: int|
            0 <= i < procs.len() && (#[trigger] procs[i]).parent is Some ==> number(procs[i].pid)
                < number(procs[i].parent->0),
    ensures
        family_ends(tree_of(procs), root),
{
    lemma_no_generation_beyond(procs, number, root, number(root) + 1);
    assert(!has_generation(tree_of(procs), root, number(root) + 1));
}

proof fn lemma_no_generation_beyond(
    procs: Seq<ProcInfo>,
    number: spec_fn(u32) -> nat,
    pid: u32,
    steps: nat,
)
    requires
        forall|i: int|
            0 <= i < procs.len() && (#[trigger] procs[i]).parent is Some ==> number(procs[i].pid)
                < number(procs[i].parent->0),
        number(pid) < steps,
    ensures
        !has_generation(tree_of(procs), pid, steps),
    decreases steps,
{
    let tree = tree_of(procs);
    let ks = kids(tree, pid);
    let fewer = (steps - 1) as nat;
    assert forall|k: int| 0 <= k < ks.len() implies !has_generation(tree, #[trigger] ks[k], fewer) by {
        law_children_are_those_with_that_parent(procs, pid, ks[k]);
        assert(ks.contains(ks[k]));
        let i = choose|i: int|
            0 <= i < procs.len() && (#[trigger] procs[i]).pid == ks[k] && procs[i].parent == Some(
                pid,
            );
        assert(number(procs[i].pid) < number(procs[i].parent->0));
        lemma_no_generation_beyond(procs, number, ks[k], fewer);
    }
}

/// A family is listed from the top: first `root`, then its children in their order.
pub proof fn law_family_is_listed_from_the_top(tree: Map<u32, Seq<u32>>, root: u32)
    requires
        family_ends(tree, root),
    ensures
        family(tree, root).len() > kids(tree, root).len(),
        family(tree, root)[0] == root,
        family(tree, root).subrange(1, 1 + kids(tree, root).len() as int) == kids(tree, root),
{
    let depth = generations(tree, root);
    assert(!has_generation(tree, root, depth));
    assert(depth > 0);
    let all = family(tree, root);
    assert(all.subrange(1, 1 + kids(tree, root).len() as int) =~= kids(tree, root));
}

/// A family in which somebody descends from itself has no end.
pub proof fn law_loop_has_no_end(tree: Map<u32, Seq<u32>>, root: u32, x: u32, steps: nat)
    requires
        in_family(tree, root, x),
        steps > 0,
        below_by(tree, x, x, steps),
    ensures
        !family_ends(tree, root),
{
    if family_ends(tree, root) {
        let n = choose|n: nat| !has_generation(tree, root, n);
        let above = choose|above: nat| below_by(tree, root, x, above);
        lemma_cycle_never_ends(tree, x, steps, n);
        lemma_generation_below(tree, root, x, above, n);
        lemma_generation_monotone(tree, root, n, above + n);
    }
}

/// A map from parents to children is seen as it is: with every parent and all its children.
pub proof fn law_child_lists_are_those_of_the_map(map: Map<u32, Vec<u32>>, parent: u32)
    ensures
        child_lists(map).contains_key(parent) <==> map.contains_key(parent),
        map.contains_key(parent) ==> kids(child_lists(map), parent) == map[parent]@,
        !map.contains_key(parent) ==> kids(child_lists(map), parent).len() == 0,
{
}

} // verus!
