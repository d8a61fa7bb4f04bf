//! The collection loop: what a tick collects, when it is written out and under which name.
//!
//! A [`Collector`] makes the decisions of the loop. Its caller reads the process table and
//! the clocks, runs `lsof`, writes files and sleeps, as the collector says. Points in time
//! are nanoseconds of one steady clock, counted from a moment before the start.

use std::collections::HashMap;

use vstd::prelude::*;

use crate::clock::hour_at;
use crate::clock::hour_label;
use crate::clock::is_hour_text;
use crate::clock::NANOS;
use crate::clock::YEAR_10000;
use crate::columns::record_views;
use crate::config::Config;
use crate::filenames::data_file_name;
use crate::filenames::make_data_file_name;
use crate::paths::join;
use crate::paths::joined;
use crate::process::build_record;
use crate::process::record_of;
use crate::process::user_known_as;
use crate::process::ProcInfo;
use crate::process::ProcRecord;
use crate::process::RecordView;
use crate::process::SlowFields;
use crate::process::SlowView;
use crate::process::UserCache;
use crate::retention::purge_is_due;
use crate::retention::DailyRetention;
use crate::targets::all_places;
use crate::targets::as_places;
use crate::targets::can_be_listed;
use crate::targets::find_all;
use crate::targets::target_places;
use crate::text::same_text;
use crate::tree::build_children_map;
use crate::tree::child_lists;
use crate::tree::family_is_finite;
use crate::tree::kids;
use crate::tree::reachable_pids;
use crate::tree::tree_of;

verus! {

/// The nanoseconds of a second.
pub const SECOND: u128 = 1_000_000_000;

/// The shortest sampling interval: a tenth of a second.
pub const SHORTEST_INTERVAL: u128 = 100_000_000;

/// The configuration of the collection loop.
#[derive(Debug, Clone)]
pub struct CollectConfig {
    /// The sampling interval in seconds, as the bit pattern of a 64-bit IEEE 754 number.
    pub interval_bits: u64,
    /// The seconds between two collections of working directories and open files.
    pub slow_interval: u64,
    /// Whether `lsof` is run through `sudo`.
    pub sudo: bool,
    /// Whether working directories and open files are never collected.
    pub no_slow: bool,
    /// The only process to watch, with its descendants; `None` for all processes.
    pub pid: Option<u32>,
    /// The days after which data files are deleted; zero keeps them forever.
    pub data_retention: u64,
    /// The days after which log files are deleted; zero keeps them forever.
    pub log_retention: u64,
    /// The seconds between two flushes of buffered records.
    pub flush_interval: u64,
    /// The directory of the data files.
    pub data_dir: String,
    /// The directory of the log files.
    pub log_dir: String,
}

impl CollectConfig {
    /// The part of a configuration that the collection needs.
    pub fn from_config(config: &Config, data_dir: String, log_dir: String) -> (cfg: CollectConfig)
        ensures
            cfg.interval_bits == config.interval_bits,
            cfg.slow_interval == config.slow_interval,
            cfg.sudo == config.sudo,
            cfg.no_slow == config.no_slow,
            cfg.pid == config.pid,
            cfg.data_retention == config.data_retention,
            cfg.log_retention == config.log_retention,
            cfg.flush_interval == config.flush_interval,
            cfg.data_dir@ == data_dir@,
            cfg.log_dir@ == log_dir@,
    {
        CollectConfig {
            interval_bits: config.interval_bits,
            slow_interval: config.slow_interval,
            sudo: config.sudo,
            no_slow: config.no_slow,
            pid: config.pid,
            data_retention: config.data_retention,
            log_retention: config.log_retention,
            flush_interval: config.flush_interval,
            data_dir,
            log_dir,
        }
    }
}

/// What a tick is to do.
pub struct TickPlan {
    /// Whether working directories and open files are collected in this tick.
    pub slow: bool,
    /// The places of the processes to record.
    pub targets: Vec<usize>,
    /// The children of every process that has any.
    pub children: HashMap<u32, Vec<u32>>,
}

impl TickPlan {
    /// The targets are places of a list of `n` processes.
    pub open spec fn is_for(self, n: nat) -> bool {
        forall|k: int| 0 <= k < self.targets@.len() ==> #[trigger] self.targets@[k] < n
    }
}

/// A data file that is to be written.
#[derive(Debug, Clone)]
pub struct Flush {
    /// The hour of its records.
    pub hour: String,
    /// Its name.
    pub file_name: String,
    /// Its path in the data directory.
    pub path: String,
    /// Its records.
    pub records: Vec<ProcRecord>,
}

/// The contents of a [`Flush`].
#[verifier::ext_equal]
pub struct FlushView {
    pub hour: Seq<char>,
    pub file_name: Seq<char>,
    pub path: Seq<char>,
    pub records: Seq<RecordView>,
}

impl View for Flush {
    type V = FlushView;

    open spec fn view(&self) -> FlushView {
        FlushView {
            hour: self.hour@,
            file_name: self.file_name@,
            path: self.path@,
            records: record_views(self.records@),
        }
    }
}

/// The contents of an optional [`Flush`].
pub open spec fn opt_flush(flush: Option<Flush>) -> Option<FlushView> {
    match flush {
        Some(f) => Some(f@),
        None => None,
    }
}

/// The time from `then` to `now`; none if `then` is later.
pub open spec fn since(now: u128, then: u128) -> int {
    if now >= then {
        now - then
    } else {
        0
    }
}

fn time_since(now: u128, then: u128) -> (elapsed: u128)
    ensures
        elapsed == since(now, then),
{
    if now >= then {
        now - then
    } else {
        0
    }
}

/// A time `every` before `start`, or `start` itself where the clock does not reach back
/// so far.
pub open spec fn one_period_ago(start: u128, every: u128) -> u128 {
    if start >= every {
        (start - every) as u128
    } else {
        start
    }
}

/// The state of the collection loop.
pub struct Collector {
    interval: u128,
    slow_every: u128,
    flush_every: u128,
    no_slow: bool,
    pid: Option<u32>,
    data_dir: String,
    last_slow: u128,
    last_flush: u128,
    user_cache: UserCache,
    buffer: Vec<ProcRecord>,
    flush_count: u64,
    hour: String,
    data_retention: DailyRetention,
    log_retention: DailyRetention,
}

/// The contents of a [`Collector`].
#[verifier::ext_equal]
pub struct CollectorView {
    /// The time between the starts of two ticks.
    pub interval: u128,
    /// The shortest time between two slow ticks.
    pub slow_every: u128,
    /// The time after which buffered records are flushed.
    pub flush_every: u128,
    pub no_slow: bool,
    pub pid: Option<u32>,
    pub data_dir: Seq<char>,
    /// The start of the last slow tick.
    pub last_slow: u128,
    /// The start of the tick of the last flush.
    pub last_flush: u128,
    /// The users that are known.
    pub users: Map<u32, Option<Seq<char>>>,
    /// The records that are not yet flushed.
    pub buffer: Seq<RecordView>,
    /// The number of the next data file.
    pub flush_count: u64,
    /// The hour of the buffered records, which names the next data file.
    pub hour: Seq<char>,
    /// The days that data files are kept, and the day of the last look.
    pub data_days: u64,
    pub data_date: Seq<char>,
    /// The days that log files are kept, and the day of the last look.
    pub log_days: u64,
    pub log_date: Seq<char>,
}

impl View for Collector {
    type V = CollectorView;

    closed spec fn view(&self) -> CollectorView {
        CollectorView {
            interval: self.interval,
            slow_every: self.slow_every,
            flush_every: self.flush_every,
            no_slow: self.no_slow,
            pid: self.pid,
            data_dir: self.data_dir@,
            last_slow: self.last_slow,
            last_flush: self.last_flush,
            users: self.user_cache@,
            buffer: record_views(self.buffer@),
            flush_count: self.flush_count,
            hour: self.hour@,
            data_days: self.data_retention.days,
            data_date: self.data_retention.last_date@,
            log_days: self.log_retention.days,
            log_date: self.log_retention.last_date@,
        }
    }
}

/// The period of a number of seconds, of at least one second.
pub open spec fn period(secs: u64) -> u128 {
    if secs == 0 {
        SECOND
    } else {
        (secs * SECOND) as u128
    }
}

fn period_of(secs: u64) -> (every: u128)
    ensures
        every == period(secs),
        every >= SECOND,
{
    if secs == 0 {
        SECOND
    } else {
        (secs as u128) * SECOND
    }
}

/// The state at the start.
pub open spec fn at_start(
    cfg: CollectConfig,
    interval_nanos: u128,
    start: u128,
    first_number: u64,
    hour: Seq<char>,
    today: Seq<char>,
) -> CollectorView {
    CollectorView {
        interval: if interval_nanos < SHORTEST_INTERVAL {
            SHORTEST_INTERVAL
        } else {
            interval_nanos
        },
        slow_every: period(cfg.slow_interval),
        flush_every: period(cfg.flush_interval),
        no_slow: cfg.no_slow,
        pid: cfg.pid,
        data_dir: cfg.data_dir@,
        last_slow: one_period_ago(start, period(cfg.slow_interval)),
        last_flush: one_period_ago(start, period(cfg.flush_interval)),
        users: Map::empty(),
        buffer: Seq::empty(),
        flush_count: first_number,
        hour,
        data_days: cfg.data_retention,
        data_date: today,
        log_days: cfg.log_retention,
        log_date: today,
    }
}

/// Whether a tick that starts at `now` is a slow one.
pub open spec fn slow_is_due(state: CollectorView, now: u128) -> bool {
    !state.no_slow && since(now, state.last_slow) >= state.slow_every
}

/// The state once a tick has started at `now`.
pub open spec fn tick_started(state: CollectorView, now: u128) -> CollectorView {
    if slow_is_due(state, now) {
        CollectorView { last_slow: now, ..state }
    } else {
        state
    }
}

/// The slow fields of the target `k`: none outside of slow ticks.
pub open spec fn slow_of(slow_tick: bool, slow: Seq<SlowFields>, k: int) -> Option<SlowView> {
    if slow_tick && 0 <= k < slow.len() {
        Some(slow[k]@)
    } else {
        None
    }
}

/// `records` are those that a tick at `ts_nanos` makes of its targets, in their order. Their
/// users are what `users` says.
pub open spec fn are_records_of(
    records: Seq<RecordView>,
    procs: Seq<ProcInfo>,
    targets: Seq<int>,
    tree: Map<u32, Seq<u32>>,
    ts_nanos: u128,
    slow_tick: bool,
    slow: Seq<SlowFields>,
    users: Map<u32, Option<Seq<char>>>,
) -> bool {
    &&& records.len() == targets.len()
    &&& forall|k: int|
        0 <= k < targets.len() ==> {
            let info = procs[targets[k]];
            &&& (#[trigger] records[k]) == record_of(
                info.pid,
                info,
                ts_nanos,
                records[k].user,
                kids(tree, info.pid),
                slow_of(slow_tick, slow, k),
            )
            &&& user_known_as(users, info.uid, records[k].user)
        }
}

/// The UTC hour of a record's time is labelled `hour`.
pub open spec fn is_of_hour(hour: Seq<char>, record: RecordView) -> bool {
    is_hour_text(hour, (record.ts_nanos / NANOS) as int)
}

/// `after` knows what `before` knew, and otherwise only the users of `targets`.
pub open spec fn users_grew(
    before: Map<u32, Option<Seq<char>>>,
    after: Map<u32, Option<Seq<char>>>,
    procs: Seq<ProcInfo>,
    targets: Seq<int>,
) -> bool {
    &&& before.submap_of(after)
    &&& forall|uid: u32| #[trigger]
        after.contains_key(uid) && !before.contains_key(uid) ==> exists|k: int|
            0 <= k < targets.len() && procs[#[trigger] targets[k]].uid == Some(uid)
}

/// The state once `records` are buffered and `users` are known.
pub open spec fn buffered(
    state: CollectorView,
    records: Seq<RecordView>,
    users: Map<u32, Option<Seq<char>>>,
) -> CollectorView {
    CollectorView { buffer: state.buffer + records, users, ..state }
}

/// The data file that holds the buffered records.
pub open spec fn flush_of(state: CollectorView) -> FlushView {
    FlushView {
        hour: state.hour,
        file_name: data_file_name(state.hour, state.flush_count),
        path: joined(state.data_dir, data_file_name(state.hour, state.flush_count)),
        records: state.buffer,
    }
}

/// The state once the buffered records are written out in a tick that started at `now`.
pub open spec fn written_out(state: CollectorView, now: u128) -> CollectorView {
    CollectorView {
        buffer: Seq::empty(),
        flush_count: if state.flush_count == u64::MAX {
            0
        } else {
            (state.flush_count + 1) as u64
        },
        last_flush: now,
        ..state
    }
}

/// What is written out before a tick in the hour `hour`: the records of another hour.
pub open spec fn hour_flush(state: CollectorView, hour: Seq<char>) -> Option<FlushView> {
    if hour != state.hour && state.buffer.len() > 0 {
        Some(flush_of(state))
    } else {
        None
    }
}

/// The state after that.
pub open spec fn hour_begun(state: CollectorView, now: u128, hour: Seq<char>) -> CollectorView {
    if hour_flush(state, hour) is Some {
        CollectorView { hour, ..written_out(state, now) }
    } else {
        CollectorView { hour, ..state }
    }
}

/// Whether the buffered records are written out at the end of a tick that started at `now`:
/// if there are any, and the flush interval has passed.
pub open spec fn flush_is_due(state: CollectorView, now: u128) -> bool {
    since(now, state.last_flush) >= state.flush_every && state.buffer.len() > 0
}

/// What is written out at the end of a tick that started at `now`.
pub open spec fn flushed(state: CollectorView, now: u128) -> Option<FlushView> {
    if flush_is_due(state, now) {
        Some(flush_of(state))
    } else {
        None
    }
}

/// The state after that.
pub open spec fn after_flush(state: CollectorView, now: u128) -> CollectorView {
    if flush_is_due(state, now) {
        written_out(state, now)
    } else {
        state
    }
}

impl Collector {
    /// The collector at the start, `start` on the clock. `interval_nanos` is the sampling
    /// interval of `cfg` in nanoseconds, and `first_number` the number of the first data
    /// file: behind those in use, as [`next_number`](crate::filenames::next_number) finds
    /// it. The first tick is a slow one, and its records are
    /// flushed, unless the clock does not reach back a whole period.
    pub fn new(
        cfg: &CollectConfig,
        interval_nanos: u128,
        start: u128,
        first_number: u64,
        hour: String,
        today: String,
    ) -> (collector: Collector)
        ensures
            collector@ == at_start(*cfg, interval_nanos, start, first_number, hour@, today@),
    {
        let slow_every: u128 = period_of(cfg.slow_interval);
        let flush_every: u128 = period_of(cfg.flush_interval);
        let last_slow: u128 = if start >= slow_every {
            start - slow_every
        } else {
            start
        };
        let last_flush: u128 = if start >= flush_every {
            start - flush_every
        } else {
            start
        };
        let interval: u128 = if interval_nanos < SHORTEST_INTERVAL {
            SHORTEST_INTERVAL
        } else {
            interval_nanos
        };
        let collector = Collector {
            interval,
            slow_every,
            flush_every,
            no_slow: cfg.no_slow,
            pid: cfg.pid,
            data_dir: cfg.data_dir.clone(),
            last_slow,
            last_flush,
            user_cache: UserCache::new(),
            buffer: Vec::new(),
            flush_count: first_number,
            hour,
            data_retention: DailyRetention::new(cfg.data_retention, today.clone()),
            log_retention: DailyRetention::new(cfg.log_retention, today),
        };
        assert(collector@ =~= at_start(
            *cfg,
            interval_nanos,
            start,
            first_number,
            hour@,
            today@,
        ));
        collector
    }

    /// Starts a tick at `now`. There is no plan for it if the process to watch is among its
    /// own descendants.
    pub fn begin_tick(&mut self, now: u128, procs: &Vec<ProcInfo>) -> (plan: Option<TickPlan>)
        ensures
            plan is Some <==> can_be_listed(procs@, old(self)@.pid),
            plan matches Some(p) ==> {
                &&& p.slow == slow_is_due(old(self)@, now)
                &&& as_places(p.targets@) == target_places(procs@, old(self)@.pid)
                &&& p.is_for(procs@.len())
                &&& child_lists(p.children@) == tree_of(procs@)
            },
            final(self)@ == (if plan is Some {
                tick_started(old(self)@, now)
            } else {
                old(self)@
            }),
    {
        let children = build_children_map(procs);
        let targets = match self.pid {
            None => all_places(procs.len()),
            Some(root) => {
                if !family_is_finite(root, &children) {
                    return None;
                }
                let pids = reachable_pids(root, &children);
                find_all(&pids, procs)
            },
        };
        let slow = !self.no_slow && time_since(now, self.last_slow) >= self.slow_every;
        if slow {
            self.last_slow = now;
        }
        Some(TickPlan { slow, targets, children })
    }

    /// Buffers the records of a tick at `ts_nanos`. In a slow tick, `slow` holds what was
    /// collected of the targets, in their order. Returns the number of records.
    pub fn add_records(
        &mut self,
        procs: &Vec<ProcInfo>,
        plan: &TickPlan,
        ts_nanos: u128,
        slow: &Vec<SlowFields>,
    ) -> (count: usize)
        requires
            plan.is_for(procs@.len()),
        ensures
            count == plan.targets@.len(),
            exists|records: Seq<RecordView>, users: Map<u32, Option<Seq<char>>>|
                {
                    &&& are_records_of(
                        records,
                        procs@,
                        as_places(plan.targets@),
                        child_lists(plan.children@),
                        ts_nanos,
                        plan.slow,
                        slow@,
                        users,
                    )
                    &&& users_grew(old(self)@.users, users, procs@, as_places(plan.targets@))
                    &&& final(self)@ == #[trigger] buffered(old(self)@, records, users)
                },
    {
        let ghost before = self@;
        let ghost targets = as_places(plan.targets@);
        let ghost tree = child_lists(plan.children@);
        let ghost mut records: Seq<RecordView> = Seq::empty();
        let no_children: Vec<u32> = Vec::new();
        let mut k: usize = 0;
        while k < plan.targets.len()
            invariant
                k <= plan.targets.len(),
                plan.is_for(procs@.len()),
                targets == as_places(plan.targets@),
                tree == child_lists(plan.children@),
                no_children@.len() == 0,
                are_records_of(
                    records,
                    procs@,
                    targets.take(k as int),
                    tree,
                    ts_nanos,
                    plan.slow,
                    slow@,
                    self@.users,
                ),
                users_grew(before.users, self@.users, procs@, targets.take(k as int)),
                self@ == buffered(before, records, self@.users),
            decreases plan.targets.len() - k,
        {
            let ghost state = self@;
            let place: usize = plan.targets[k];
            let info = &procs[place];
            let fields = if plan.slow && k < slow.len() {
                Some(&slow[k])
            } else {
                None
            };
            let list = match plan.children.get(&info.pid) {
                Some(found) => found,
                None => &no_children,
            };
            assert(list@ =~= kids(tree, info.pid));
            let record = build_record(
                info.pid,
                info,
                ts_nanos,
                &mut self.user_cache,
                list,
                fields,
            );
            let ghost made = record@;
            let ghost old_buffer = self.buffer@;
            self.buffer.push(record);
            proof {
                assert(targets[k as int] == place as int);
                assert(record_views(self.buffer@) =~= record_views(old_buffer).push(made));
                lemma_one_more_record(
                    records,
                    made,
                    procs@,
                    targets,
                    k as int,
                    tree,
                    ts_nanos,
                    plan.slow,
                    slow@,
                    state.users,
                    self@.users,
                );
                lemma_users_grew_on(
                    before.users,
                    state.users,
                    self@.users,
                    procs@,
                    targets,
                    k as int,
                    made.user,
                );
                records = records.push(made);
                assert(self@.buffer =~= before.buffer + records);
                assert(self@ =~= buffered(before, records, self@.users));
            }
            k = k + 1;
        }
        assert(targets.take(k as int) =~= targets);
        k
    }

    /// Takes the buffered records out, for their data file.
    fn take_flush(&mut self, now: u128) -> (flush: Flush)
        ensures
            flush@ == flush_of(old(self)@),
            final(self)@ == written_out(old(self)@, now),
    {
        let ghost state = self@;
        let hour = self.hour.clone();
        let file_name = make_data_file_name(hour.as_str(), self.flush_count);
        let path = join(self.data_dir.as_str(), file_name.as_str());
        let mut records: Vec<ProcRecord> = Vec::new();
        std::mem::swap(&mut records, &mut self.buffer);
        self.flush_count = self.flush_count.wrapping_add(1);
        self.last_flush = now;
        assert(self@ =~= written_out(state, now));
        Flush { hour, file_name, path, records }
    }

    /// Begins the hour of a tick that started at `now`, before the tick's records are
    /// buffered. If it is another hour than that of the buffered records, these are written
    /// out, so that a data file holds the records of one hour.
    pub fn begin_hour(&mut self, now: u128, hour: String) -> (flush: Option<Flush>)
        ensures
            opt_flush(flush) == hour_flush(old(self)@, hour@),
            final(self)@ == hour_begun(old(self)@, now, hour@),
            flush is Some <==> hour@ != old(self)@.hour && old(self)@.buffer.len() > 0,
            hour@ != old(self)@.hour ==> final(self)@.buffer.len() == 0,
            final(self)@.hour == hour@,
    {
        let ghost state = self@;
        if same_text(hour.as_str(), self.hour.as_str()) {
            assert(self@ =~= hour_begun(state, now, hour@));
            return None;
        }
        let flush = if self.buffer.len() > 0 {
            Some(self.take_flush(now))
        } else {
            None
        };
        self.hour = hour;
        assert(self@ =~= hour_begun(state, now, hour@));
        flush
    }

    /// Records a tick that started at `now`, at the time `ts_nanos`: begins the hour of that
    /// time and buffers the records. Returns the data file of the hour before, where that
    /// has ended, and the number of records. There is no result, and nothing changes, if the
    /// calendar does not reach as far as that time.
    pub fn add_tick(
        &mut self,
        now: u128,
        ts_nanos: u128,
        procs: &Vec<ProcInfo>,
        plan: &TickPlan,
        slow: &Vec<SlowFields>,
    ) -> (tick: Option<(Option<Flush>, usize)>)
        requires
            plan.is_for(procs@.len()),
        ensures
            tick is Some <==> hour_label(ts_nanos) is Some,
            ts_nanos / NANOS < YEAR_10000 ==> tick is Some,
            tick is None ==> final(self)@ == old(self)@,
            tick matches Some((flush, count)) ==> {
                let hour = hour_label(ts_nanos)->0;
                &&& opt_flush(flush) == hour_flush(old(self)@, hour)
                &&& count == plan.targets@.len()
                &&& exists|records: Seq<RecordView>, users: Map<u32, Option<Seq<char>>>|
                    {
                        &&& are_records_of(
                            records,
                            procs@,
                            as_places(plan.targets@),
                            child_lists(plan.children@),
                            ts_nanos,
                            plan.slow,
                            slow@,
                            users,
                        )
                        &&& users_grew(old(self)@.users, users, procs@, as_places(plan.targets@))
                        &&& ts_nanos / NANOS < YEAR_10000 ==> forall|k: int|
                            0 <= k < records.len() ==> is_of_hour(hour, #[trigger] records[k])
                        &&& final(self)@ == #[trigger] buffered(
                            hour_begun(old(self)@, now, hour),
                            records,
                            users,
                        )
                    }
            },
    {
        let ghost before = self@;
        let hour = match hour_at(ts_nanos) {
            Some(hour) => hour,
            None => return None,
        };
        let flush = self.begin_hour(now, hour);
        let ghost begun = self@;
        let count: usize = self.add_records(procs, plan, ts_nanos, slow);
        proof {
            let (records, users) = choose|
                records: Seq<RecordView>,
                users: Map<u32, Option<Seq<char>>>,
            |
                {
                    &&& are_records_of(
                        records,
                        procs@,
                        as_places(plan.targets@),
                        child_lists(plan.children@),
                        ts_nanos,
                        plan.slow,
                        slow@,
                        users,
                    )
                    &&& users_grew(begun.users, users, procs@, as_places(plan.targets@))
                    &&& self@ == #[trigger] buffered(begun, records, users)
                };
            if ts_nanos / NANOS < YEAR_10000 {
                assert forall|k: int| 0 <= k < records.len() implies is_of_hour(
                    hour@,
                    #[trigger] records[k],
                ) by {
                    assert(records[k].ts_nanos == ts_nanos);
                }
            }
            assert(self@ == buffered(hour_begun(before, now, hour@), records, users));
        }
        Some((flush, count))
    }

    /// Decides at the end of a tick that started at `now` whether the buffered records are
    /// written out.
    pub fn flush(&mut self, now: u128) -> (flush: Option<Flush>)
        ensures
            opt_flush(flush) == flushed(old(self)@, now),
            final(self)@ == after_flush(old(self)@, now),
    {
        if time_since(now, self.last_flush) >= self.flush_every && self.buffer.len() > 0 {
            Some(self.take_flush(now))
        } else {
            None
        }
    }

    /// Whether old data files are to be looked for on the day `today`.
    pub fn data_purge_due(&mut self, today: &str) -> (due: bool)
        ensures
            due == purge_is_due(old(self)@.data_days, old(self)@.data_date, today@),
            final(self)@ == (CollectorView {
                data_date: if due {
                    today@
                } else {
                    old(self)@.data_date
                },
                ..old(self)@
            }),
    {
        self.data_retention.due(today)
    }

    /// Whether old log files are to be looked for on the day `today`.
    pub fn log_purge_due(&mut self, today: &str) -> (due: bool)
        ensures
            due == purge_is_due(old(self)@.log_days, old(self)@.log_date, today@),
            final(self)@ == (CollectorView {
                log_date: if due {
                    today@
                } else {
                    old(self)@.log_date
                },
                ..old(self)@
            }),
    {
        self.log_retention.due(today)
    }

    /// How long to sleep after a tick that took `elapsed`.
    pub fn pause(&self, elapsed: u128) -> (nanos: Option<u128>)
        ensures
            nanos == (if elapsed < self@.interval {
                Some((self@.interval - elapsed) as u128)
            } else {
                None
            }),
    {
        if elapsed < self.interval {
            Some(self.interval - elapsed)
        } else {
            None
        }
    }

    /// The number of records that are not yet flushed.
    pub fn buffered_count(&self) -> (count: usize)
        ensures
            count == self@.buffer.len(),
    {
        self.buffer.len()
    }
}

proof fn lemma_one_more_record(
    records: Seq<RecordView>,
    made: RecordView,
    procs: Seq<ProcInfo>,
    targets: Seq<int>,
    k: int,
    tree: Map<u32, Seq<u32>>,
    ts_nanos: u128,
    slow_tick: bool,
    slow: Seq<SlowFields>,
    users: Map<u32, Option<Seq<char>>>,
    more_users: Map<u32, Option<Seq<char>>>,
)
    requires
        0 <= k < targets.len(),
        are_records_of(records, procs, targets.take(k), tree, ts_nanos, slow_tick, slow, users),
        users.submap_of(more_users),
        made == record_of(
            procs[targets[k]].pid,
            procs[targets[k]],
            ts_nanos,
            made.user,
            kids(tree, procs[targets[k]].pid),
            slow_of(slow_tick, slow, k),
        ),
        user_known_as(more_users, procs[targets[k]].uid, made.user),
    ensures
        are_records_of(
            records.push(made),
            procs,
            targets.take(k + 1),
            tree,
            ts_nanos,
            slow_tick,
            slow,
            more_users,
        ),
{
    let all = records.push(made);
    assert forall|j: int| 0 <= j < k + 1 implies {
        let info = procs[targets.take(k + 1)[j]];
        &&& (#[trigger] all[j]) == record_of(
            info.pid,
            info,
            ts_nanos,
            all[j].user,
            kids(tree, info.pid),
            slow_of(slow_tick, slow, j),
        )
        &&& user_known_as(more_users, info.uid, all[j].user)
    } by {
        if j < k {
            assert(all[j] == records[j]);
            assert(targets.take(k)[j] == targets.take(k + 1)[j]);
        }
    }
}

proof fn lemma_users_grew_on(
    before: Map<u32, Option<Seq<char>>>,
    users: Map<u32, Option<Seq<char>>>,
    more_users: Map<u32, Option<Seq<char>>>,
    procs: Seq<ProcInfo>,
    targets: Seq<int>,
    k: int,
    user: Option<Seq<char>>,
)
    requires
        0 <= k < targets.len(),
        users_grew(before, users, procs, targets.take(k)),
        more_users == crate::process::after_lookup(users, procs[targets[k]].uid, user),
    ensures
        users_grew(before, more_users, procs, targets.take(k + 1)),
        users.submap_of(more_users),
{
    let first = targets.take(k);
    let upto = targets.take(k + 1);
    assert(before.submap_of(more_users)) by {
        assert forall|uid: u32| before.contains_key(uid) implies more_users.contains_key(uid)
            && more_users[uid] == before[uid] by {
            assert(before.dom().contains(uid));
            assert(users.dom().contains(uid));
        }
    }
    assert forall|uid: u32| #[trigger]
        more_users.contains_key(uid) && !before.contains_key(uid) implies exists|j: int|
        0 <= j < upto.len() && procs[#[trigger] upto[j]].uid == Some(uid) by {
        if users.contains_key(uid) {
            let j = choose|j: int| 0 <= j < first.len() && procs[#[trigger] first[j]].uid == Some(uid);
            assert(upto[j] == first[j]);
        } else {
            assert(upto[k] == targets[k]);
        }
    }
}

/// A data file that is to be written is seen as it is: with its hour, its name, its path and
/// all its records.
pub proof fn law_flush_is_seen_as_it_is(flush: Option<Flush>)
    ensures
        opt_flush(flush) is Some <==> flush is Some,
        flush is Some ==> {
            &&& opt_flush(flush)->0.hour == flush->0.hour@
            &&& opt_flush(flush)->0.file_name == flush->0.file_name@
            &&& opt_flush(flush)->0.path == flush->0.path@
            &&& opt_flush(flush)->0.records == record_views(flush->0.records@)
        },
{
}

} // verus!
