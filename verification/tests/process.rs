use procmon::process::build_record;
use procmon::process::make_record;
use procmon::process::ProcInfo;
use procmon::process::ProcStatus;
use procmon::process::SlowFields;
use procmon::process::UserCache;

fn info(pid: u32) -> ProcInfo {
    ProcInfo {
        pid,
        parent: Some(1),
        name: "alpha".to_string(),
        uid: Some(501),
        status: ProcStatus::Run,
        cpu_bits: 10.0f32.to_bits(),
        memory: 1000,
        virtual_memory: 5000,
        tasks: Some(3),
        start_time: 1700000000,
    }
}

#[test]
fn status_labels_are_the_lower_case_names_of_sysinfo() {
    let pairs = [
        (ProcStatus::Idle, sysinfo::ProcessStatus::Idle),
        (ProcStatus::Run, sysinfo::ProcessStatus::Run),
        (ProcStatus::Sleep, sysinfo::ProcessStatus::Sleep),
        (ProcStatus::Stop, sysinfo::ProcessStatus::Stop),
        (ProcStatus::Zombie, sysinfo::ProcessStatus::Zombie),
        (ProcStatus::Tracing, sysinfo::ProcessStatus::Tracing),
        (ProcStatus::Dead, sysinfo::ProcessStatus::Dead),
        (ProcStatus::Wakekill, sysinfo::ProcessStatus::Wakekill),
        (ProcStatus::Waking, sysinfo::ProcessStatus::Waking),
        (ProcStatus::Parked, sysinfo::ProcessStatus::Parked),
        (ProcStatus::LockBlocked, sysinfo::ProcessStatus::LockBlocked),
        (ProcStatus::UninterruptibleDiskSleep, sysinfo::ProcessStatus::UninterruptibleDiskSleep),
        (ProcStatus::Suspended, sysinfo::ProcessStatus::Suspended),
        (ProcStatus::Unknown(77), sysinfo::ProcessStatus::Unknown(77)),
    ];
    for (ours, theirs) in pairs {
        assert_eq!(ours.label(), format!("{:?}", theirs).to_lowercase());
    }
}

#[test]
fn a_record_holds_what_is_known_of_the_process() {
    let slow = SlowFields { cwd: Some("/tmp".to_string()), num_fds: Some(3) };
    let record = make_record(100, &info(100), 7, Some("sebastien".to_string()), &vec![200, 300], Some(&slow));
    assert_eq!(record.ts_nanos, 7);
    assert_eq!(record.pid, 100);
    assert_eq!(record.ppid, Some(1));
    assert_eq!(record.name, "alpha");
    assert_eq!(record.user, Some("sebastien".to_string()));
    assert_eq!(record.status, "run");
    assert_eq!(record.cpu_bits, 10.0f32.to_bits());
    assert_eq!(record.mem_rss, 1000);
    assert_eq!(record.mem_vms, 5000);
    assert_eq!(record.num_threads, 4);
    assert_eq!(record.create_time, 1700000000);
    assert_eq!(record.cwd, Some("/tmp".to_string()));
    assert_eq!(record.num_fds, Some(3));
    assert_eq!(record.children, vec![200, 300]);
}

#[test]
fn without_tasks_there_is_one_thread_and_without_slow_fields_none() {
    let mut p = info(1);
    p.tasks = None;
    let record = make_record(1, &p, 0, None, &Vec::new(), None);
    assert_eq!(record.num_threads, 1);
    assert_eq!(record.cwd, None);
    assert_eq!(record.num_fds, None);
    assert_eq!(record.user, None);
}

#[test]
fn a_user_is_asked_for_once() {
    let mut cache = UserCache::new();
    assert_eq!(cache.remember(501, Some("first".to_string())), Some("first".to_string()));
    assert_eq!(cache.remember(501, Some("later".to_string())), Some("first".to_string()));
    assert_eq!(cache.lookup(501), Some("first".to_string()));
    assert_eq!(cache.remember(502, None), None);
    assert_eq!(cache.lookup(502), None);
    assert_eq!(cache.lookup(501), Some("first".to_string()));
}

#[test]
fn the_user_of_a_record_comes_from_the_cache() {
    let mut cache = UserCache::new();
    cache.remember(501, Some("sebastien".to_string()));
    let record = build_record(5, &info(5), 0, &mut cache, &Vec::new(), None);
    assert_eq!(record.user, Some("sebastien".to_string()));
    let mut nobody = info(6);
    nobody.uid = None;
    let record = build_record(6, &nobody, 0, &mut cache, &Vec::new(), None);
    assert_eq!(record.user, None);
}

#[test]
fn the_database_knows_the_superuser() {
    let mut cache = UserCache::new();
    let name = cache.lookup(0);
    assert_eq!(name, uzers::get_user_by_uid(0).map(|u| u.name().to_string_lossy().into_owned()));
    assert_eq!(cache.lookup(0), name);
}
