//! What holds of the collection loop over any number of ticks.

use vstd::arithmetic::div_mod::lemma_fundamental_div_mod_converse;
use vstd::prelude::*;

use crate::clock::day_number;
use crate::clock::is_date;
use crate::clock::law_hour_label_shows_date_and_hour;
use crate::collect::after_flush;
use crate::collect::are_records_of;
use crate::collect::at_start;
use crate::collect::buffered;
use crate::collect::flush_is_due;
use crate::collect::flush_of;
use crate::collect::flushed;
use crate::collect::hour_begun;
use crate::collect::hour_flush;
use crate::collect::is_of_hour;
use crate::collect::period;
use crate::collect::since;
use crate::collect::slow_is_due;
use crate::collect::slow_of;
use crate::collect::tick_started;
use crate::collect::users_grew;
use crate::collect::CollectConfig;
use crate::collect::CollectorView;
use crate::collect::FlushView;
use crate::filenames::data_file_name;
use crate::filenames::law_file_names_tell_apart;
use crate::filenames::law_name_shows_hour_and_number;
use crate::filenames::law_new_names_are_free;
use crate::filenames::number_behind;
use crate::paths::law_joined_path_follows_its_directory;
use crate::process::record_of;
use crate::process::ProcInfo;
use crate::process::RecordView;
use crate::process::SlowFields;
use crate::text::numeral_value;
use crate::tree::kids;
use crate::tree::law_children_are_those_with_that_parent;
use crate::tree::tree_of;

verus! {

/// One step of the collection loop.
pub enum Step {
    /// The hour of a tick that started at a point in time begins.
    Hour(u128, Seq<char>),
    /// A tick starts at a point in time.
    Start(u128),
    /// The records of a tick are buffered, and users are learned.
    Records(Seq<RecordView>, Map<u32, Option<Seq<char>>>),
    /// A tick that started at a point in time ends.
    End(u128),
}

/// The state after a step.
pub open spec fn step(state: CollectorView, s: Step) -> CollectorView {
    match s {
        Step::Hour(now, hour) => hour_begun(state, now, hour),
        Step::Start(now) => tick_started(state, now),
        Step::Records(records, users) => buffered(state, records, users),
        Step::End(now) => after_flush(state, now),
    }
}

/// The state after some steps.
pub open spec fn run(state: CollectorView, steps: Seq<Step>) -> CollectorView
    decreases steps.len(),
{
    if steps.len() == 0 {
        state
    } else {
        step(run(state, steps.drop_last()), steps.last())
    }
}

/// The data file that a step writes, if it writes one.
pub open spec fn file_of(state: CollectorView, s: Step) -> Option<FlushView> {
    match s {
        Step::Hour(_, hour) => hour_flush(state, hour),
        Step::End(now) => flushed(state, now),
        _ => None,
    }
}

/// The data files that some steps write, in their order.
pub open spec fn written(state: CollectorView, steps: Seq<Step>) -> Seq<FlushView>
    decreases steps.len(),
{
    if steps.len() == 0 {
        Seq::empty()
    } else {
        let before = written(state, steps.drop_last());
        match file_of(run(state, steps.drop_last()), steps.last()) {
            Some(file) => before.push(file),
            None => before,
        }
    }
}

/// The records that some steps collect, in their order.
pub open spec fn collected(steps: Seq<Step>) -> Seq<RecordView>
    decreases steps.len(),
{
    if steps.len() == 0 {
        Seq::empty()
    } else {
        match steps.last() {
            Step::Records(records, _) => collected(steps.drop_last()) + records,
            _ => collected(steps.drop_last()),
        }
    }
}

/// The records of some data files, in their order.
pub open spec fn records_in(files: Seq<FlushView>) -> Seq<RecordView>
    decreases files.len(),
{
    if files.len() == 0 {
        Seq::empty()
    } else {
        records_in(files.drop_last()) + files.last().records
    }
}

/// No record is lost, doubled or reordered: the records of the data files that are handed
/// out to be written, followed by those still buffered, are those buffered at first,
/// followed by those collected.
pub proof fn law_no_record_is_lost(state: CollectorView, steps: Seq<Step>)
    ensures
        records_in(written(state, steps)) + run(state, steps).buffer == state.buffer + collected(
            steps,
        ),
    decreases steps.len(),
{
    let files = written(state, steps);
    if steps.len() == 0 {
        assert(records_in(files) + state.buffer =~= state.buffer + collected(steps));
    } else {
        let rest = steps.drop_last();
        let middle = run(state, rest);
        let before = written(state, rest);
        law_no_record_is_lost(state, rest);
        match steps.last() {
            Step::Records(records, users) => {
                assert(records_in(files) + (middle.buffer + records) =~= (records_in(before)
                    + middle.buffer) + records);
                assert(state.buffer + (collected(rest) + records) =~= (state.buffer + collected(
                    rest,
                )) + records);
            },
            _ => {
                if file_of(middle, steps.last()) is Some {
                    assert(files.drop_last() =~= before);
                    assert(records_in(files) =~= records_in(before) + middle.buffer);
                    assert(records_in(files) + Seq::<RecordView>::empty() =~= records_in(files));
                }
            },
        }
    }
}

/// Every data file that is written holds at least one record.
pub proof fn law_no_empty_file_is_written(state: CollectorView, steps: Seq<Step>, i: int)
    requires
        0 <= i < written(state, steps).len(),
    ensures
        written(state, steps)[i].records.len() > 0,
    decreases steps.len(),
{
    if steps.len() > 0 && i < written(state, steps.drop_last()).len() {
        law_no_empty_file_is_written(state, steps.drop_last(), i);
    }
}

/// After a tick has ended, records wait in the buffer only if the flush interval has not
/// passed since the last flush.
pub proof fn law_records_wait_no_longer(state: CollectorView, now: u128)
    requires
        after_flush(state, now).buffer.len() > 0,
    ensures
        since(now, after_flush(state, now).last_flush) < state.flush_every,
{
}

/// No record waits for another hour: once that has begun, the buffer is empty.
pub proof fn law_no_record_waits_for_another_hour(state: CollectorView, now: u128, hour: Seq<char>)
    requires
        hour != state.hour,
    ensures
        hour_begun(state, now, hour).buffer.len() == 0,
{
}

/// `holds` of every record that is buffered, at first or by a step, and of the hour that is
/// current then.
pub open spec fn holds_when_buffered(
    state: CollectorView,
    steps: Seq<Step>,
    holds: spec_fn(Seq<char>, RecordView) -> bool,
) -> bool {
    &&& forall|j: int| 0 <= j < state.buffer.len() ==> holds(state.hour, #[trigger] state.buffer[j])
    &&& forall|m: int|
        0 <= m < steps.len() ==> (#[trigger] steps[m] matches Step::Records(records, _) ==> forall|
            j: int,
        |
            0 <= j < records.len() ==> holds(run(state, steps.take(m)).hour, #[trigger] records[j]))
}

proof fn lemma_hours_are_kept(
    state: CollectorView,
    steps: Seq<Step>,
    holds: spec_fn(Seq<char>, RecordView) -> bool,
)
    requires
        holds_when_buffered(state, steps, holds),
    ensures
        forall|j: int|
            0 <= j < run(state, steps).buffer.len() ==> holds(
                run(state, steps).hour,
                #[trigger] run(state, steps).buffer[j],
            ),
        forall|i: int, k: int|
            0 <= i < written(state, steps).len() && 0 <= k < written(state, steps)[i].records.len()
                ==> holds(
                written(state, steps)[i].hour,
                #[trigger] written(state, steps)[i].records[k],
            ),
    decreases steps.len(),
{
    if steps.len() > 0 {
        let rest = steps.drop_last();
        let middle = run(state, rest);
        let last = steps.last();
        assert(steps[steps.len() - 1] == last);
        assert(steps.take(steps.len() - 1) =~= rest);
        assert(holds_when_buffered(state, rest, holds)) by {
            assert forall|m: int| 0 <= m < rest.len() implies (#[trigger] rest[m] matches Step::Records(
                records,
                _,
            ) ==> forall|j: int|
                0 <= j < records.len() ==> holds(
                    run(state, rest.take(m)).hour,
                    #[trigger] records[j],
                )) by {
                assert(steps[m] == rest[m]);
                assert(rest.take(m) =~= steps.take(m));
            }
        }
        lemma_hours_are_kept(state, rest, holds);
        let after = run(state, steps);
        assert forall|j: int| 0 <= j < after.buffer.len() implies holds(
            after.hour,
            #[trigger] after.buffer[j],
        ) by {
            if let Step::Records(records, _) = last {
                if j < middle.buffer.len() {
                    assert(after.buffer[j] == middle.buffer[j]);
                } else {
                    assert(after.buffer[j] == records[j - middle.buffer.len()]);
                }
            } else {
                assert(after.buffer[j] == middle.buffer[j]);
            }
        }
        let files = written(state, steps);
        let before = written(state, rest);
        assert forall|i: int, k: int|
            0 <= i < files.len() && 0 <= k < files[i].records.len() implies holds(
            files[i].hour,
            #[trigger] files[i].records[k],
        ) by {
            if i < before.len() {
                assert(files[i] == before[i]);
                assert(holds(before[i].hour, before[i].records[k]));
            } else {
                assert(files[i].records[k] == middle.buffer[k]);
            }
        }
    }
}

/// Every record of a data file was buffered while the hour was that of the file: whatever
/// holds of the records and the hours in which they are buffered holds of the records and
/// the hour of each file. The name of the file is made of that hour.
pub proof fn law_records_go_to_the_file_of_their_hour(
    state: CollectorView,
    steps: Seq<Step>,
    holds: spec_fn(Seq<char>, RecordView) -> bool,
    i: int,
    k: int,
)
    requires
        holds_when_buffered(state, steps, holds),
        0 <= i < written(state, steps).len(),
        0 <= k < written(state, steps)[i].records.len(),
    ensures
        holds(written(state, steps)[i].hour, written(state, steps)[i].records[k]),
        exists|seq: u64|
            written(state, steps)[i].file_name == #[trigger] data_file_name(
                written(state, steps)[i].hour,
                seq,
            ),
{
    lemma_hours_are_kept(state, steps, holds);
    assert(holds(written(state, steps)[i].hour, written(state, steps)[i].records[k]));
    lemma_file_is_named_by_its_hour(state, steps, i);
}

proof fn lemma_file_is_named_by_its_hour(state: CollectorView, steps: Seq<Step>, i: int)
    requires
        0 <= i < written(state, steps).len(),
    ensures
        exists|seq: u64|
            written(state, steps)[i].file_name == #[trigger] data_file_name(
                written(state, steps)[i].hour,
                seq,
            ),
    decreases steps.len(),
{
    if steps.len() > 0 {
        let before = written(state, steps.drop_last());
        if i < before.len() {
            lemma_file_is_named_by_its_hour(state, steps.drop_last(), i);
            let seq = choose|seq: u64|
                before[i].file_name == #[trigger] data_file_name(before[i].hour, seq);
            assert(written(state, steps)[i] == before[i]);
            assert(written(state, steps)[i].file_name == data_file_name(
                written(state, steps)[i].hour,
                seq,
            ));
        } else {
            let middle = run(state, steps.drop_last());
            assert(written(state, steps)[i].file_name == data_file_name(
                written(state, steps)[i].hour,
                middle.flush_count,
            ));
        }
    }
}

/// Each step that buffers records comes right behind the one that begins the hour of their
/// time, as [`add_tick`](crate::collect::Collector::add_tick) takes them.
pub open spec fn records_follow_their_hour(steps: Seq<Step>) -> bool {
    forall|m: int|
        0 <= m < steps.len() ==> (#[trigger] steps[m] matches Step::Records(records, _) ==> {
            &&& m > 0
            &&& steps[m - 1] matches Step::Hour(_, label) && forall|j: int|
                0 <= j < records.len() ==> is_of_hour(label, #[trigger] records[j])
        })
}

/// The steps of one tick that starts at `now` in the hour `hour`.
pub open spec fn tick_steps(
    now: u128,
    hour: Seq<char>,
    records: Seq<RecordView>,
    users: Map<u32, Option<Seq<char>>>,
) -> Seq<Step> {
    seq![Step::Start(now), Step::Hour(now, hour), Step::Records(records, users), Step::End(now)]
}

/// A tick of the loop: what [`begin_tick`](crate::collect::Collector::begin_tick),
/// [`add_tick`](crate::collect::Collector::add_tick) and
/// [`flush`](crate::collect::Collector::flush) make of a state, one after the other, is what
/// its steps make of it. With it, the records of all ticks follow their hour.
pub proof fn law_a_tick_is_its_steps(
    state: CollectorView,
    steps: Seq<Step>,
    now: u128,
    hour: Seq<char>,
    records: Seq<RecordView>,
    users: Map<u32, Option<Seq<char>>>,
)
    requires
        records_follow_their_hour(steps),
        forall|k: int| 0 <= k < records.len() ==> is_of_hour(hour, #[trigger] records[k]),
    ensures
        run(state, steps + tick_steps(now, hour, records, users)) == after_flush(
            buffered(
                hour_begun(tick_started(run(state, steps), now), now, hour),
                records,
                users,
            ),
            now,
        ),
        records_follow_their_hour(steps + tick_steps(now, hour, records, users)),
{
    let tick = tick_steps(now, hour, records, users);
    let all = steps + tick;
    let n = steps.len() as int;
    assert(all.drop_last().drop_last().drop_last().drop_last() =~= steps);
    assert(all.last() == Step::End(now));
    assert(all.drop_last().last() == Step::Records(records, users));
    assert(all.drop_last().drop_last().last() == Step::Hour(now, hour));
    assert(all.drop_last().drop_last().drop_last().last() == Step::Start(now));
    reveal_with_fuel(run, 5);
    assert forall|m: int| 0 <= m < all.len() implies (#[trigger] all[m] matches Step::Records(rs, _)
        ==> {
        &&& m > 0
        &&& all[m - 1] matches Step::Hour(_, label) && forall|j: int|
            0 <= j < rs.len() ==> is_of_hour(label, #[trigger] rs[j])
    }) by {
        if m < n {
            assert(all[m] == steps[m]);
            if m > 0 {
                assert(all[m - 1] == steps[m - 1]);
            }
        } else {
            assert(all[m] == tick[m - n]);
            if m == n + 2 {
                assert(all[m - 1] == tick[1]);
            }
        }
    }
}

/// A data file holds the records of one hour: the time of every record of a file lies in
/// the hour that names the file.
pub proof fn law_a_file_holds_one_hour(state: CollectorView, steps: Seq<Step>, i: int, k: int)
    requires
        state.buffer.len() == 0,
        records_follow_their_hour(steps),
        0 <= i < written(state, steps).len(),
        0 <= k < written(state, steps)[i].records.len(),
    ensures
        is_of_hour(written(state, steps)[i].hour, written(state, steps)[i].records[k]),
        exists|seq: u64|
            written(state, steps)[i].file_name == #[trigger] data_file_name(
                written(state, steps)[i].hour,
                seq,
            ),
{
    let holds = |hour: Seq<char>, r: RecordView| is_of_hour(hour, r);
    assert(holds_when_buffered(state, steps, holds)) by {
        assert forall|m: int| 0 <= m < steps.len() implies (#[trigger] steps[m] matches Step::Records(
            records,
            _,
        ) ==> forall|j: int|
            0 <= j < records.len() ==> holds(
                run(state, steps.take(m)).hour,
                #[trigger] records[j],
            )) by {
            if steps[m] is Records {
                let before = steps.take(m);
                assert(before.last() == steps[m - 1]);
            }
        }
    }
    law_records_go_to_the_file_of_their_hour(state, steps, holds, i, k);
}

/// The data files are numbered in sequence, as long as the numbers last.
pub proof fn law_files_are_numbered_in_sequence(state: CollectorView, steps: Seq<Step>)
    requires
        state.flush_count + written(state, steps).len() <= u64::MAX,
    ensures
        run(state, steps).flush_count == state.flush_count + written(state, steps).len(),
        forall|i: int|
            0 <= i < written(state, steps).len() ==> (#[trigger] written(state, steps)[i]).file_name
                == data_file_name(
                written(state, steps)[i].hour,
                (state.flush_count + i) as u64,
            ),
    decreases steps.len(),
{
    if steps.len() > 0 {
        let rest = steps.drop_last();
        let files = written(state, steps);
        let before = written(state, rest);
        law_files_are_numbered_in_sequence(state, rest);
        assert forall|i: int| 0 <= i < files.len() implies (#[trigger] files[i]).file_name
            == data_file_name(files[i].hour, (state.flush_count + i) as u64) by {
            if i < before.len() {
                assert(files[i] == before[i]);
            } else {
                let middle = run(state, rest);
                assert((state.flush_count + i) as u64 == middle.flush_count);
            }
        }
    }
}

/// No run writes a data file twice: as long as the numbers last, any two files of a run have
/// different names.
pub proof fn law_no_file_is_written_twice(state: CollectorView, steps: Seq<Step>, i: int, j: int)
    requires
        state.flush_count + written(state, steps).len() <= u64::MAX,
        0 <= i < j < written(state, steps).len(),
    ensures
        written(state, steps)[i].file_name != written(state, steps)[j].file_name,
{
    law_files_are_numbered_in_sequence(state, steps);
    let files = written(state, steps);
    if files[i].file_name == files[j].file_name {
        law_file_names_tell_apart(
            files[i].hour,
            (state.flush_count + i) as u64,
            files[j].hour,
            (state.flush_count + j) as u64,
        );
    }
}

/// A run that begins behind the numbers in use overwrites none of the files that it found,
/// as long as the numbers last.
pub proof fn law_no_old_file_is_overwritten(
    state: CollectorView,
    steps: Seq<Step>,
    names: Seq<Seq<char>>,
    i: int,
)
    requires
        state.flush_count >= number_behind(names),
        state.flush_count + written(state, steps).len() <= u64::MAX,
        0 <= i < written(state, steps).len(),
    ensures
        !names.contains(written(state, steps)[i].file_name),
{
    law_files_are_numbered_in_sequence(state, steps);
    law_new_names_are_free(
        names,
        written(state, steps)[i].hour,
        (state.flush_count + i) as u64,
    );
}

proof fn lemma_last_slow_only_grows(state: CollectorView, steps: Seq<Step>)
    ensures
        state.slow_every > 0 ==> run(state, steps).last_slow >= state.last_slow,
        run(state, steps).slow_every == state.slow_every,
        run(state, steps).no_slow == state.no_slow,
        run(state, steps).flush_every == state.flush_every,
        run(state, steps).interval == state.interval,
    decreases steps.len(),
{
    if steps.len() > 0 {
        lemma_last_slow_only_grows(state, steps.drop_last());
    }
}

/// Two slow ticks start at least the slow interval apart, whatever happens between them.
pub proof fn law_slow_ticks_are_apart(
    state: CollectorView,
    first: u128,
    steps: Seq<Step>,
    second: u128,
)
    requires
        state.slow_every > 0,
        slow_is_due(state, first),
        slow_is_due(run(tick_started(state, first), steps), second),
    ensures
        second - first >= state.slow_every,
{
    lemma_last_slow_only_grows(tick_started(state, first), steps);
}

/// A collector that never collects slowly has no slow tick.
pub proof fn law_no_slow_means_never(state: CollectorView, steps: Seq<Step>, now: u128)
    requires
        state.no_slow,
    ensures
        !slow_is_due(run(state, steps), now),
{
    lemma_last_slow_only_grows(state, steps);
}

/// Working directories and open files are recorded on slow ticks only.
pub proof fn law_slow_fields_only_on_slow_ticks(
    records: Seq<RecordView>,
    procs: Seq<ProcInfo>,
    targets: Seq<int>,
    tree: Map<u32, Seq<u32>>,
    ts_nanos: u128,
    slow: Seq<SlowFields>,
    users: Map<u32, Option<Seq<char>>>,
)
    requires
        are_records_of(records, procs, targets, tree, ts_nanos, false, slow, users),
    ensures
        forall|k: int|
            0 <= k < records.len() ==> (#[trigger] records[k]).cwd is None
                && records[k].num_fds is None,
{
}

/// Ticks start at least the sampling interval apart: what a tick took and the sleep after
/// it make up the interval, unless the tick alone took longer.
pub proof fn law_ticks_keep_the_interval(state: CollectorView, elapsed: u128, pause: Option<u128>)
    requires
        pause == (if elapsed < state.interval {
            Some((state.interval - elapsed) as u128)
        } else {
            None
        }),
    ensures
        pause matches Some(nanos) ==> elapsed + nanos == state.interval,
        pause is None ==> elapsed >= state.interval,
{
}

/// Where the clock reaches back a whole period, the first tick is a slow one, unless none
/// ever is, and its records are flushed at once.
pub proof fn law_first_tick_is_slow_and_flushed(
    cfg: CollectConfig,
    interval_nanos: u128,
    start: u128,
    first_number: u64,
    hour: Seq<char>,
    today: Seq<char>,
    now: u128,
    records: Seq<RecordView>,
    users: Map<u32, Option<Seq<char>>>,
)
    requires
        start >= period(cfg.slow_interval),
        start >= period(cfg.flush_interval),
        now >= start,
        records.len() > 0,
    ensures
        ({
            let state = at_start(cfg, interval_nanos, start, first_number, hour, today);
            let ticked = buffered(tick_started(hour_begun(state, now, hour), now), records, users);
            &&& slow_is_due(state, now) == !cfg.no_slow
            &&& flush_is_due(ticked, now)
            &&& flush_of(ticked).records == records
            &&& flush_of(ticked).file_name == data_file_name(hour, first_number)
        }),
{
    let state = at_start(cfg, interval_nanos, start, first_number, hour, today);
    assert(state.buffer + records =~= records);
}

/// The collector starts as it is configured: with the interval that was asked for, of a tenth
/// of a second at least, and with periods of whole seconds, of one second at least. It has
/// met no user and buffered nothing.
pub proof fn law_start_follows_the_configuration(
    cfg: CollectConfig,
    interval_nanos: u128,
    start: u128,
    first_number: u64,
    hour: Seq<char>,
    today: Seq<char>,
)
    ensures
        ({
            let state = at_start(cfg, interval_nanos, start, first_number, hour, today);
            &&& interval_nanos >= 100_000_000 ==> state.interval == interval_nanos
            &&& interval_nanos < 100_000_000 ==> state.interval == 100_000_000
            &&& cfg.slow_interval > 0 ==> state.slow_every == cfg.slow_interval * 1_000_000_000
            &&& cfg.slow_interval == 0 ==> state.slow_every == 1_000_000_000
            &&& cfg.flush_interval > 0 ==> state.flush_every == cfg.flush_interval * 1_000_000_000
            &&& cfg.flush_interval == 0 ==> state.flush_every == 1_000_000_000
            &&& state.no_slow == cfg.no_slow
            &&& state.pid == cfg.pid
            &&& state.data_dir == cfg.data_dir@
            &&& state.users.dom().len() == 0 && state.users.dom().finite()
            &&& state.buffer.len() == 0
            &&& state.flush_count == first_number
            &&& state.hour == hour
            &&& state.data_days == cfg.data_retention
            &&& state.log_days == cfg.log_retention
            &&& state.data_date == today
            &&& state.log_date == today
        }),
{
    assert(cfg.slow_interval * 1_000_000_000 <= u128::MAX);
    assert(cfg.flush_interval * 1_000_000_000 <= u128::MAX);
}

/// As long as the clock reaches back, the first slow tick and the first flush are due at the
/// start; if it does not, they are due one period later, and not before.
pub proof fn law_first_periods_end_at_the_start(
    cfg: CollectConfig,
    interval_nanos: u128,
    start: u128,
    first_number: u64,
    hour: Seq<char>,
    today: Seq<char>,
)
    ensures
        ({
            let state = at_start(cfg, interval_nanos, start, first_number, hour, today);
            &&& start >= state.slow_every ==> state.last_slow + state.slow_every == start
            &&& start < state.slow_every ==> state.last_slow == start
            &&& start >= state.flush_every ==> state.last_flush + state.flush_every == start
            &&& start < state.flush_every ==> state.last_flush == start
        }),
{
}

/// A tick is a slow one exactly where such ticks are wanted and the slow interval has passed
/// since the last one.
pub proof fn law_slow_tick_comes_when_its_time_has_come(state: CollectorView, now: u128)
    requires
        state.slow_every > 0,
    ensures
        slow_is_due(state, now) <==> !state.no_slow && now >= state.last_slow + state.slow_every,
{
}

/// After a slow tick the next one comes once the slow interval has passed, and not before,
/// whatever is buffered and written in between.
pub proof fn law_slow_ticks_come_back(
    state: CollectorView,
    first: u128,
    steps: Seq<Step>,
    second: u128,
)
    requires
        state.slow_every > 0,
        slow_is_due(state, first),
        forall|m: int| 0 <= m < steps.len() ==> !(#[trigger] steps[m] is Start),
    ensures
        slow_is_due(run(tick_started(state, first), steps), second) <==> second >= first
            + state.slow_every,
{
    lemma_last_slow_waits_for_a_start(tick_started(state, first), steps);
    lemma_last_slow_only_grows(tick_started(state, first), steps);
}

proof fn lemma_last_slow_waits_for_a_start(state: CollectorView, steps: Seq<Step>)
    requires
        forall|m: int| 0 <= m < steps.len() ==> !(#[trigger] steps[m] is Start),
    ensures
        run(state, steps).last_slow == state.last_slow,
    decreases steps.len(),
{
    if steps.len() > 0 {
        assert(!(steps[steps.len() - 1] is Start));
        assert forall|m: int| 0 <= m < steps.len() - 1 implies !(#[trigger] steps.drop_last()[m] is Start) by {
            assert(steps.drop_last()[m] == steps[m]);
        }
        lemma_last_slow_waits_for_a_start(state, steps.drop_last());
    }
}

/// The start of a tick changes nothing but the time of the last slow tick, and that only if
/// this is one.
pub proof fn law_start_of_a_tick_keeps_the_rest(state: CollectorView, now: u128)
    ensures
        !slow_is_due(state, now) ==> tick_started(state, now) == state,
        slow_is_due(state, now) ==> tick_started(state, now).last_slow == now,
        tick_started(state, now).last_flush == state.last_flush,
        tick_started(state, now).users == state.users,
        tick_started(state, now).buffer == state.buffer,
        tick_started(state, now).flush_count == state.flush_count,
        tick_started(state, now).hour == state.hour,
{
}

/// Buffered records are written out at the end of a tick exactly where there are any and the
/// flush interval has passed since the last flush. All of them are, in their order.
pub proof fn law_flush_comes_when_its_time_has_come(state: CollectorView, now: u128)
    requires
        state.flush_every > 0,
    ensures
        flushed(state, now) is Some <==> state.buffer.len() > 0 && now >= state.last_flush
            + state.flush_every,
        flushed(state, now) is Some ==> {
            &&& flushed(state, now)->0.records == state.buffer
            &&& flushed(state, now)->0.hour == state.hour
            &&& after_flush(state, now).buffer.len() == 0
            &&& after_flush(state, now).last_flush == now
            &&& state.flush_count < u64::MAX ==> after_flush(state, now).flush_count
                == state.flush_count + 1
            &&& state.flush_count == u64::MAX ==> after_flush(state, now).flush_count == 0
        },
        flushed(state, now) is None ==> after_flush(state, now) == state,
        after_flush(state, now).users == state.users,
        after_flush(state, now).last_slow == state.last_slow,
        after_flush(state, now).hour == state.hour,
{
}

/// A tick in another hour first writes out what is buffered, under the hour of that. One in
/// the same hour changes nothing.
pub proof fn law_another_hour_ends_the_file(state: CollectorView, now: u128, hour: Seq<char>)
    ensures
        hour == state.hour ==> hour_flush(state, hour) is None && hour_begun(state, now, hour)
            == state,
        hour != state.hour && state.buffer.len() == 0 ==> hour_flush(state, hour) is None,
        hour != state.hour && state.buffer.len() > 0 ==> {
            &&& hour_flush(state, hour) is Some
            &&& hour_flush(state, hour)->0.records == state.buffer
            &&& hour_flush(state, hour)->0.hour == state.hour
            &&& hour_begun(state, now, hour).last_flush == now
            &&& hour_begun(state, now, hour).buffer.len() == 0
            &&& state.flush_count < u64::MAX ==> hour_begun(state, now, hour).flush_count
                == state.flush_count + 1
            &&& state.flush_count == u64::MAX ==> hour_begun(state, now, hour).flush_count == 0
        },
        hour_flush(state, hour) is None ==> {
            &&& hour_begun(state, now, hour).last_flush == state.last_flush
            &&& hour_begun(state, now, hour).flush_count == state.flush_count
            &&& hour_begun(state, now, hour).buffer == state.buffer
        },
        hour_begun(state, now, hour).hour == hour,
        hour_begun(state, now, hour).users == state.users,
        hour_begun(state, now, hour).last_slow == state.last_slow,
{
    assert(hour == state.hour ==> hour_begun(state, now, hour) =~= state);
}

/// Records are buffered behind those that are there, and nothing else changes but the users
/// that are known.
pub proof fn law_records_are_buffered_in_order(
    state: CollectorView,
    records: Seq<RecordView>,
    users: Map<u32, Option<Seq<char>>>,
)
    ensures
        buffered(state, records, users).buffer == state.buffer + records,
        buffered(state, records, users).users == users,
        buffered(state, records, state.users) == (CollectorView {
            buffer: state.buffer + records,
            ..state
        }),
        buffered(state, Seq::empty(), state.users) == state,
        buffered(state, records, users).last_slow == state.last_slow,
        buffered(state, records, users).last_flush == state.last_flush,
        buffered(state, records, users).flush_count == state.flush_count,
        buffered(state, records, users).hour == state.hour,
{
    assert(buffered(state, Seq::empty(), state.users) =~= state);
}

/// No step changes how the collector is configured.
pub proof fn law_steps_keep_the_configuration(state: CollectorView, steps: Seq<Step>)
    ensures
        run(state, steps).interval == state.interval,
        run(state, steps).slow_every == state.slow_every,
        run(state, steps).flush_every == state.flush_every,
        run(state, steps).no_slow == state.no_slow,
        run(state, steps).pid == state.pid,
        run(state, steps).data_dir == state.data_dir,
        run(state, steps).data_days == state.data_days,
        run(state, steps).data_date == state.data_date,
        run(state, steps).log_days == state.log_days,
        run(state, steps).log_date == state.log_date,
    decreases steps.len(),
{
    if steps.len() > 0 {
        law_steps_keep_the_configuration(state, steps.drop_last());
    }
}

/// A data file lies in the data directory, under its name.
pub proof fn law_data_files_lie_in_the_data_directory(state: CollectorView)
    requires
        state.hour.len() == 0 || state.hour[0] != '/',
    ensures
        state.data_dir.len() > 0 && state.data_dir.last() != '/' ==> flush_of(state).path
            == state.data_dir + seq!['/'] + flush_of(state).file_name,
        state.data_dir.len() == 0 || state.data_dir.last() == '/' ==> flush_of(state).path
            == state.data_dir + flush_of(state).file_name,
        flush_of(state).records == state.buffer,
{
    law_name_shows_hour_and_number(state.hour, state.flush_count);
    let name = flush_of(state).file_name;
    if state.hour.len() > 0 {
        assert(name.take(state.hour.len() as int)[0] == state.hour[0]);
    }
    law_joined_path_follows_its_directory(state.data_dir, name);
}

/// The records of a tick are those of its targets, one each and in their order. Each repeats
/// what was reported of its process, whatever the values are, and lists as its children the
/// processes that have it as their parent.
pub proof fn law_records_stand_as_reported(
    records: Seq<RecordView>,
    procs: Seq<ProcInfo>,
    targets: Seq<int>,
    ts_nanos: u128,
    slow_tick: bool,
    slow: Seq<SlowFields>,
    users: Map<u32, Option<Seq<char>>>,
    k: int,
    pid: u32,
)
    requires
        are_records_of(
            records,
            procs,
            targets,
            tree_of(procs),
            ts_nanos,
            slow_tick,
            slow,
            users,
        ),
        0 <= k < targets.len(),
        0 <= targets[k] < procs.len(),
    ensures
        records.len() == targets.len(),
        records[k].ts_nanos == ts_nanos,
        records[k].pid == procs[targets[k]].pid,
        records[k].ppid == procs[targets[k]].parent,
        records[k].name == procs[targets[k]].name@,
        records[k].cpu_bits == procs[targets[k]].cpu_bits,
        records[k].mem_rss == procs[targets[k]].memory,
        records[k].mem_vms == procs[targets[k]].virtual_memory,
        records[k].create_time == procs[targets[k]].start_time,
        records[k].status == procs[targets[k]].status.label_text(),
        records[k].num_threads == 1 + (match procs[targets[k]].tasks {
            Some(n) => n as int,
            None => 0,
        }),
        records[k].children.contains(pid) <==> exists|i: int|
            0 <= i < procs.len() && (#[trigger] procs[i]).pid == pid && procs[i].parent == Some(
                procs[targets[k]].pid,
            ),
        match procs[targets[k]].uid {
            Some(uid) => users.contains_key(uid) && records[k].user == users[uid],
            None => records[k].user is None,
        },
        !slow_tick || k >= slow.len() ==> records[k].cwd is None && records[k].num_fds is None,
        slow_tick && k < slow.len() ==> records[k].num_fds == slow[k].num_fds,
        slow_tick && k < slow.len() ==> (records[k].cwd is Some <==> slow[k].cwd is Some),
        slow_tick && k < slow.len() && slow[k].cwd is Some ==> records[k].cwd->0
            == slow[k].cwd->0@,
{
    let info = procs[targets[k]];
    let record = records[k];
    law_children_are_those_with_that_parent(procs, info.pid, pid);
    assert(record == record_of(
        info.pid,
        info,
        ts_nanos,
        record.user,
        kids(tree_of(procs), info.pid),
        slow_of(slow_tick, slow, k),
    ));
}

/// What is known of the users stays, and a tick asks for those of its targets alone.
pub proof fn law_known_users_stay(
    before: Map<u32, Option<Seq<char>>>,
    after: Map<u32, Option<Seq<char>>>,
    procs: Seq<ProcInfo>,
    targets: Seq<int>,
    uid: u32,
)
    requires
        users_grew(before, after, procs, targets),
    ensures
        before.contains_key(uid) ==> after.contains_key(uid) && after[uid] == before[uid],
        after.contains_key(uid) && !before.contains_key(uid) ==> exists|k: int|
            0 <= k < targets.len() && procs[#[trigger] targets[k]].uid == Some(uid),
{
    if before.contains_key(uid) {
        assert(before.dom().contains(uid));
        assert(after.dom().contains(uid));
    }
}

/// A record that belongs to an hour was made on the date and in the hour that the label of
/// the hour shows.
pub proof fn law_hour_of_a_record_is_that_of_its_time(
    hour: Seq<char>,
    record: RecordView,
    secs: int,
) -> (date: (int, int, int))
    requires
        is_of_hour(hour, record),
        secs * 1_000_000_000 <= record.ts_nanos < (secs + 1) * 1_000_000_000,
    ensures
        is_date(date.0, date.1, date.2),
        day_number(date.0, date.1, date.2) == secs / 86400,
        hour.len() == 13,
        numeral_value(hour.take(4)) == date.0,
        numeral_value(hour.subrange(5, 7)) == date.1,
        numeral_value(hour.subrange(8, 10)) == date.2,
        numeral_value(hour.skip(11)) == (secs % 86400) / 3600,
{
    lemma_fundamental_div_mod_converse(
        record.ts_nanos as int,
        1_000_000_000,
        secs,
        record.ts_nanos - secs * 1_000_000_000,
    );
    law_hour_label_shows_date_and_hour(hour, secs)
}

} // verus!
