use procmon::collect::SECOND;
use procmon::collect::SHORTEST_INTERVAL;
use procmon::filenames::next_number;
use procmon::filenames::number_in;
use procmon::process::ProcInfo;
use procmon::process::ProcStatus;
use procmon::process::SlowFields;
use procmon::CollectConfig;
use procmon::Collector;
use procmon::Config;

fn proc_info(pid: u32, parent: Option<u32>) -> ProcInfo {
    ProcInfo {
        pid,
        parent,
        name: format!("p{pid}"),
        uid: None,
        status: ProcStatus::Run,
        cpu_bits: 0,
        memory: 0,
        virtual_memory: 0,
        tasks: None,
        start_time: 0,
    }
}

fn config(pid: Option<u32>, no_slow: bool) -> CollectConfig {
    let cfg = Config { pid, no_slow, ..Config::default() };
    CollectConfig::from_config(&cfg, "/data".to_string(), "/logs".to_string())
}

fn collector(cfg: &CollectConfig, start: u128) -> Collector {
    Collector::new(cfg, SECOND, start, 0, "2025-01-01T00".to_string(), "2025-01-01".to_string())
}

const START: u128 = 1000 * SECOND;

fn tick(c: &mut Collector, now: u128, procs: &Vec<ProcInfo>) -> bool {
    let plan = c.begin_tick(now, procs).unwrap();
    c.add_records(procs, &plan, 1, &Vec::new());
    plan.slow
}

#[test]
fn the_configuration_is_taken_over() {
    let cfg = config(Some(7), true);
    assert_eq!(cfg.pid, Some(7));
    assert!(cfg.no_slow);
    assert!(!cfg.sudo);
    assert_eq!(cfg.slow_interval, 60);
    assert_eq!(cfg.flush_interval, 30);
    assert_eq!(cfg.data_retention, 7);
    assert_eq!(cfg.log_retention, 7);
    assert_eq!(cfg.interval_bits, 1.0f64.to_bits());
    assert_eq!(cfg.data_dir, "/data");
    assert_eq!(cfg.log_dir, "/logs");
}

#[test]
fn the_first_tick_is_slow_and_its_records_are_flushed() {
    let procs = vec![proc_info(1, None), proc_info(2, Some(1))];
    let mut c = collector(&config(None, false), START);
    let plan = c.begin_tick(START, &procs).unwrap();
    assert!(plan.slow);
    assert_eq!(plan.targets, vec![0, 1]);
    let slow = vec![
        SlowFields { cwd: Some("/a".to_string()), num_fds: Some(1) },
        SlowFields { cwd: None, num_fds: None },
    ];
    assert_eq!(c.add_records(&procs, &plan, 9, &slow), 2);
    assert_eq!(c.buffered_count(), 2);
    let flush = c.flush(START).unwrap();
    assert_eq!(flush.file_name, "2025-01-01T00_000000.parquet");
    assert_eq!(flush.path, "/data/2025-01-01T00_000000.parquet");
    assert_eq!(flush.records.len(), 2);
    assert_eq!(flush.records[0].cwd, Some("/a".to_string()));
    assert_eq!(flush.records[0].num_fds, Some(1));
    assert_eq!(flush.records[0].children, vec![2]);
    assert_eq!(flush.records[0].ts_nanos, 9);
    assert_eq!(flush.records[1].cwd, None);
    assert_eq!(c.buffered_count(), 0);
}

#[test]
fn a_clock_that_does_not_reach_back_delays_the_first_slow_tick() {
    let procs = vec![proc_info(1, None)];
    let mut c = collector(&config(None, false), 5 * SECOND);
    assert!(!tick(&mut c, 5 * SECOND, &procs));
    assert!(c.flush(5 * SECOND).is_none());
    assert!(!tick(&mut c, 64 * SECOND, &procs));
    assert!(tick(&mut c, 65 * SECOND, &procs));
}

#[test]
fn slow_ticks_are_a_slow_interval_apart() {
    let procs = vec![proc_info(1, None)];
    let mut c = collector(&config(None, false), START);
    assert!(tick(&mut c, START, &procs));
    assert!(!tick(&mut c, START + 59 * SECOND, &procs));
    assert!(tick(&mut c, START + 60 * SECOND, &procs));
    assert!(!tick(&mut c, START + 119 * SECOND, &procs));
    let mut never = collector(&config(None, true), START);
    assert!(!tick(&mut never, START + 1000 * SECOND, &procs));
}

#[test]
fn slow_fields_stand_on_slow_ticks_only() {
    let procs = vec![proc_info(1, None)];
    let mut c = collector(&config(None, false), START);
    let slow = vec![SlowFields { cwd: Some("/a".to_string()), num_fds: Some(1) }];
    let plan = c.begin_tick(START, &procs).unwrap();
    c.add_records(&procs, &plan, 1, &slow);
    let plan = c.begin_tick(START + SECOND, &procs).unwrap();
    assert!(!plan.slow);
    c.add_records(&procs, &plan, 2, &slow);
    let records = c.flush(START + SECOND).unwrap().records;
    assert_eq!(records[0].cwd, Some("/a".to_string()));
    assert_eq!(records[1].cwd, None);
    assert_eq!(records[1].num_fds, None);
}

#[test]
fn records_are_flushed_by_time_and_by_hour() {
    let procs = vec![proc_info(1, None)];
    let mut c = collector(&config(None, true), START);
    tick(&mut c, START, &procs);
    assert!(c.flush(START).is_some());
    tick(&mut c, START + 29 * SECOND, &procs);
    assert!(c.flush(START + 29 * SECOND).is_none());
    tick(&mut c, START + 30 * SECOND, &procs);
    let flush = c.flush(START + 30 * SECOND).unwrap();
    assert_eq!(flush.file_name, "2025-01-01T00_000001.parquet");
    assert_eq!(flush.records.len(), 2);
    tick(&mut c, START + 31 * SECOND, &procs);
    assert!(c.flush(START + 31 * SECOND).is_none());
    // A tick of another hour: what is buffered belongs to the hour that ends.
    let flush = c.begin_hour(START + 32 * SECOND, "2025-01-01T01".to_string()).unwrap();
    assert_eq!(flush.hour, "2025-01-01T00");
    assert_eq!(flush.file_name, "2025-01-01T00_000002.parquet");
    assert_eq!(flush.records.len(), 1);
    assert_eq!(c.buffered_count(), 0);
    tick(&mut c, START + 32 * SECOND, &procs);
    assert!(c.flush(START + 32 * SECOND).is_none());
    assert!(c.begin_hour(START + 62 * SECOND, "2025-01-01T01".to_string()).is_none());
    tick(&mut c, START + 62 * SECOND, &procs);
    let flush = c.flush(START + 62 * SECOND).unwrap();
    assert_eq!(flush.file_name, "2025-01-01T01_000003.parquet");
    assert_eq!(flush.records.len(), 2);
}

#[test]
fn a_file_holds_the_records_of_one_hour() {
    let procs = vec![proc_info(1, None)];
    let mut c = collector(&config(None, true), START);
    let midnight: u128 = 1_735_689_600 * SECOND;
    let mut files = Vec::new();
    for i in 0..90u128 {
        let now = START + i * SECOND;
        let ts = midnight + 3555 * SECOND + i * SECOND;
        let plan = c.begin_tick(now, &procs).unwrap();
        let (file, count) = c.add_tick(now, ts, &procs, &plan, &Vec::new()).unwrap();
        assert_eq!(count, 1);
        files.extend(file);
        files.extend(c.flush(now));
    }
    let mut hours: Vec<String> = Vec::new();
    for file in &files {
        for record in &file.records {
            assert_eq!(procmon::clock::hour_at(record.ts_nanos), Some(file.hour.clone()));
        }
        assert!(file.file_name.starts_with(&file.hour));
        hours.push(file.hour.clone());
    }
    assert!(hours.contains(&"2025-01-01T00".to_string()));
    assert!(hours.contains(&"2025-01-01T01".to_string()));
}

#[test]
fn a_time_beyond_the_calendar_is_not_recorded() {
    let procs = vec![proc_info(1, None)];
    let mut c = collector(&config(None, true), START);
    let plan = c.begin_tick(START, &procs).unwrap();
    assert!(c.add_tick(START, u128::MAX, &procs, &plan, &Vec::new()).is_none());
    assert_eq!(c.buffered_count(), 0);
}

#[test]
fn an_empty_buffer_is_not_flushed() {
    let mut c = collector(&config(None, true), START);
    assert!(c.flush(START).is_none());
    assert!(c.begin_hour(START, "2025-01-01T05".to_string()).is_none());
    let procs = vec![proc_info(1, None)];
    tick(&mut c, START, &procs);
    let flush = c.flush(START).unwrap();
    assert_eq!(flush.file_name, "2025-01-01T05_000000.parquet");
}

#[test]
fn a_run_begins_behind_the_numbers_in_use() {
    let names = vec![
        "2025-01-01T00_000000.parquet".to_string(),
        "2025-01-01T00_000007.parquet".to_string(),
        "notes.txt".to_string(),
    ];
    let first = next_number(&names).unwrap();
    assert_eq!(first, 8);
    let hour = "2025-01-01T00".to_string();
    let mut c = Collector::new(&config(None, true), SECOND, START, first, hour, "2025-01-01".to_string());
    let procs = vec![proc_info(1, None)];
    tick(&mut c, START, &procs);
    let flush = c.flush(START).unwrap();
    assert_eq!(flush.file_name, "2025-01-01T00_000008.parquet");
    assert!(!names.contains(&flush.file_name));
}

#[test]
fn file_numbers_are_read_from_names() {
    assert_eq!(number_in("2025-01-01T00_000042.parquet"), Some(42));
    assert_eq!(number_in("2025-01-01T00_1000000.parquet"), Some(1000000));
    assert_eq!(number_in("_18446744073709551615.parquet"), Some(u64::MAX));
    assert_eq!(number_in("x_18446744073709551616.parquet"), None);
    assert_eq!(number_in("x_99999999999999999999999.parquet"), None);
    assert_eq!(number_in("000042.parquet"), None);
    assert_eq!(number_in("x000042.parquet"), None);
    assert_eq!(number_in("x_.parquet"), None);
    assert_eq!(number_in("x_42.parquet.tmp"), None);
    assert_eq!(number_in(".parquet"), None);
    assert_eq!(next_number(&Vec::new()), Some(0));
    assert_eq!(next_number(&vec!["x_18446744073709551615.parquet".to_string()]), None);
}

#[test]
fn no_record_is_lost_over_many_ticks() {
    let procs = vec![proc_info(1, None), proc_info(2, Some(1)), proc_info(3, Some(2))];
    let mut c = collector(&config(None, true), START);
    let mut seen: usize = 0;
    let mut names: Vec<String> = Vec::new();
    for i in 0..100u128 {
        let now = START + i * SECOND;
        let hour = if i < 50 { "2025-01-01T00" } else { "2025-01-01T01" };
        let early = c.begin_hour(now, hour.to_string());
        tick(&mut c, now, &procs);
        for flush in early.into_iter().chain(c.flush(now)) {
            seen += flush.records.len();
            assert!(!names.contains(&flush.file_name));
            names.push(flush.file_name);
        }
    }
    assert_eq!(seen + c.buffered_count(), 300);
    assert_eq!(names.len(), 4);
}

#[test]
fn only_the_watched_family_is_recorded() {
    let procs = vec![
        proc_info(1, None),
        proc_info(10, Some(1)),
        proc_info(11, Some(10)),
        proc_info(12, Some(11)),
        proc_info(20, Some(1)),
    ];
    let mut c = collector(&config(Some(10), true), START);
    let plan = c.begin_tick(START, &procs).unwrap();
    assert_eq!(plan.targets, vec![1, 2, 3]);
    let mut gone = collector(&config(Some(99), true), START);
    let plan = gone.begin_tick(START, &procs).unwrap();
    assert!(plan.targets.is_empty());
}

#[test]
fn a_family_without_end_has_no_plan() {
    let procs = vec![proc_info(0, Some(0)), proc_info(1, Some(0))];
    let mut c = collector(&config(Some(0), false), START);
    assert!(c.begin_tick(START, &procs).is_none());
    let mut all = collector(&config(None, false), START);
    assert!(all.begin_tick(START, &procs).is_some());
}

#[test]
fn the_pause_fills_the_interval() {
    let c = collector(&config(None, false), START);
    assert_eq!(c.pause(SECOND / 4), Some(3 * SECOND / 4));
    assert_eq!(c.pause(SECOND), None);
    assert_eq!(c.pause(2 * SECOND), None);
    let fast = Collector::new(&config(None, false), 0, START, 0, String::new(), String::new());
    assert_eq!(fast.pause(0), Some(SHORTEST_INTERVAL));
}

#[test]
fn intervals_of_zero_seconds_are_of_one() {
    let mut cfg = config(None, false);
    cfg.slow_interval = 0;
    cfg.flush_interval = 0;
    let procs = vec![proc_info(1, None)];
    let mut c = collector(&cfg, START);
    assert!(tick(&mut c, START, &procs));
    assert!(!tick(&mut c, START + SECOND - 1, &procs));
    assert!(tick(&mut c, START + SECOND, &procs));
}

#[test]
fn purges_are_due_on_a_new_day() {
    let mut c = collector(&config(None, false), START);
    assert!(!c.data_purge_due("2025-01-01"));
    assert!(c.data_purge_due("2025-01-02"));
    assert!(!c.data_purge_due("2025-01-02"));
    assert!(c.log_purge_due("2025-01-02"));
    assert!(!c.log_purge_due("2025-01-02"));
    let mut cfg = config(None, false);
    cfg.data_retention = 0;
    cfg.log_retention = 0;
    let mut forever = collector(&cfg, START);
    assert!(!forever.data_purge_due("2025-01-02"));
    assert!(!forever.log_purge_due("2025-01-02"));
}
