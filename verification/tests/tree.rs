use std::collections::HashMap;

use procmon::process::ProcInfo;
use procmon::process::ProcStatus;
use procmon::tree::build_children_map;
use procmon::tree::family_is_finite;
use procmon::tree::reachable_pids;

fn child(pid: u32, parent: Option<u32>) -> ProcInfo {
    ProcInfo {
        pid,
        parent,
        name: String::new(),
        uid: None,
        status: ProcStatus::Sleep,
        cpu_bits: 0,
        memory: 0,
        virtual_memory: 0,
        tasks: None,
        start_time: 0,
    }
}

#[test]
fn children_are_listed_under_their_parent() {
    let procs = vec![child(1, None), child(2, Some(1)), child(3, Some(2)), child(4, Some(1))];
    let map = build_children_map(&procs);
    assert_eq!(map.len(), 2);
    assert_eq!(map[&1], vec![2, 4]);
    assert_eq!(map[&2], vec![3]);
}

#[test]
fn a_family_is_its_root_and_all_below() {
    let map = build_children_map(&vec![
        child(1, None),
        child(2, Some(1)),
        child(3, Some(2)),
        child(4, Some(1)),
        child(5, Some(9)),
    ]);
    assert!(family_is_finite(1, &map));
    let mut pids = reachable_pids(1, &map);
    assert_eq!(pids, vec![1, 2, 4, 3]);
    pids.sort();
    assert_eq!(pids, vec![1, 2, 3, 4]);
    assert_eq!(reachable_pids(5, &map), vec![5]);
    assert_eq!(reachable_pids(77, &map), vec![77]);
}

#[test]
fn a_family_with_a_cycle_has_no_end() {
    let mut map: HashMap<u32, Vec<u32>> = HashMap::new();
    map.insert(0, vec![0, 1]);
    map.insert(2, vec![3]);
    assert!(!family_is_finite(0, &map));
    assert!(family_is_finite(1, &map));
    assert!(family_is_finite(2, &map));
    map.insert(3, vec![2]);
    assert!(!family_is_finite(2, &map));
}
