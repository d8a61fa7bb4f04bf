//! Processes, the users that run them, and the record that one tick makes of each.

use std::collections::HashMap;

use vstd::prelude::*;

use crate::text::decimal;
use crate::text::is_digit;
use crate::text::lemma_decimal_digits;
use crate::text::lemma_decimal_value;
use crate::text::numeral_value;
use crate::text::push_decimal;

verus! {

/// The state of a process.
#[derive(Debug, Clone, Copy, PartialEq, Eq, Structural)]
pub enum ProcStatus {
    Idle,
    Run,
    Sleep,
    Stop,
    Zombie,
    Tracing,
    Dead,
    Wakekill,
    Waking,
    Parked,
    LockBlocked,
    UninterruptibleDiskSleep,
    Suspended,
    Unknown(u32),
}

impl ProcStatus {
    /// The name of the state in lower case; an unknown state shows its number.
    pub open spec fn label_text(self) -> Seq<char> {
        match self {
            ProcStatus::Idle => "idle"@,
            ProcStatus::Run => "run"@,
            ProcStatus::Sleep => "sleep"@,
            ProcStatus::Stop => "stop"@,
            ProcStatus::Zombie => "zombie"@,
            ProcStatus::Tracing => "tracing"@,
            ProcStatus::Dead => "dead"@,
            ProcStatus::Wakekill => "wakekill"@,
            ProcStatus::Waking => "waking"@,
            ProcStatus::Parked => "parked"@,
            ProcStatus::LockBlocked => "lockblocked"@,
            ProcStatus::UninterruptibleDiskSleep => "uninterruptibledisksleep"@,
            ProcStatus::Suspended => "suspended"@,
            ProcStatus::Unknown(code) => "unknown("@ + decimal(code as nat) + ")"@,
        }
    }

    /// The text that a record holds for this state.
    pub fn label(&self) -> (text: String)
        ensures
            text@ == self.label_text(),
    {
        match self {
            ProcStatus::Idle => "idle".to_string(),
            ProcStatus::Run => "run".to_string(),
            ProcStatus::Sleep => "sleep".to_string(),
            ProcStatus::Stop => "stop".to_string(),
            ProcStatus::Zombie => "zombie".to_string(),
            ProcStatus::Tracing => "tracing".to_string(),
            ProcStatus::Dead => "dead".to_string(),
            ProcStatus::Wakekill => "wakekill".to_string(),
            ProcStatus::Waking => "waking".to_string(),
            ProcStatus::Parked => "parked".to_string(),
            ProcStatus::LockBlocked => "lockblocked".to_string(),
            ProcStatus::UninterruptibleDiskSleep => "uninterruptibledisksleep".to_string(),
            ProcStatus::Suspended => "suspended".to_string(),
            ProcStatus::Unknown(code) => {
                let mut text = "unknown(".to_string();
                push_decimal(&mut text, *code as u64);
                text.append(")");
                text
            },
        }
    }
}

/// One running process as the operating system reports it.
#[derive(Debug, Clone)]
pub struct ProcInfo {
    /// The process id.
    pub pid: u32,
    /// The id of the parent process, where it has one.
    pub parent: Option<u32>,
    /// The name of its executable.
    pub name: String,
    /// The id of the user that runs it.
    pub uid: Option<u32>,
    /// Its state.
    pub status: ProcStatus,
    /// Its CPU usage in percent, as the bit pattern of a 32-bit IEEE 754 number.
    pub cpu_bits: u32,
    /// Resident memory in bytes.
    pub memory: u64,
    /// Virtual memory in bytes.
    pub virtual_memory: u64,
    /// The number of its tasks besides the main one, where it is known.
    pub tasks: Option<u32>,
    /// When it started, in seconds since the Unix epoch.
    pub start_time: u64,
}

/// The text of an optional string.
pub open spec fn opt_text(text: Option<String>) -> Option<Seq<char>> {
    match text {
        Some(s) => Some(s@),
        None => None,
    }
}

/// What only the slow collection finds out of a process.
#[derive(Debug, Clone)]
pub struct SlowFields {
    /// The current working directory.
    pub cwd: Option<String>,
    /// The number of open file descriptors.
    pub num_fds: Option<u32>,
}

/// The contents of [`SlowFields`].
pub struct SlowView {
    pub cwd: Option<Seq<char>>,
    pub num_fds: Option<u32>,
}

impl View for SlowFields {
    type V = SlowView;

    open spec fn view(&self) -> SlowView {
        SlowView { cwd: opt_text(self.cwd), num_fds: self.num_fds }
    }
}

/// One process at one tick.
#[derive(Debug, Clone)]
pub struct ProcRecord {
    /// The tick's time in nanoseconds since the Unix epoch.
    pub ts_nanos: u128,
    pub pid: u32,
    pub ppid: Option<u32>,
    pub name: String,
    pub user: Option<String>,
    pub status: String,
    /// The CPU usage in percent, as the bit pattern of a 32-bit IEEE 754 number.
    pub cpu_bits: u32,
    pub mem_rss: u64,
    pub mem_vms: u64,
    pub num_threads: u64,
    /// The start time in whole seconds since the Unix epoch.
    pub create_time: u64,
    pub cwd: Option<String>,
    pub num_fds: Option<u32>,
    pub children: Vec<u32>,
}

/// The contents of a [`ProcRecord`].
pub struct RecordView {
    pub ts_nanos: u128,
    pub pid: u32,
    pub ppid: Option<u32>,
    pub name: Seq<char>,
    pub user: Option<Seq<char>>,
    pub status: Seq<char>,
    pub cpu_bits: u32,
    pub mem_rss: u64,
    pub mem_vms: u64,
    pub num_threads: u64,
    pub create_time: u64,
    pub cwd: Option<Seq<char>>,
    pub num_fds: Option<u32>,
    pub children: Seq<u32>,
}

impl View for ProcRecord {
    type V = RecordView;

    open spec fn view(&self) -> RecordView {
        RecordView {
            ts_nanos: self.ts_nanos,
            pid: self.pid,
            ppid: self.ppid,
            name: self.name@,
            user: opt_text(self.user),
            status: self.status@,
            cpu_bits: self.cpu_bits,
            mem_rss: self.mem_rss,
            mem_vms: self.mem_vms,
            num_threads: self.num_threads,
            create_time: self.create_time,
            cwd: opt_text(self.cwd),
            num_fds: self.num_fds,
            children: self.children@,
        }
    }
}

/// The number of threads of a process: its main thread and its other tasks.
pub open spec fn thread_count(tasks: Option<u32>) -> u64 {
    match tasks {
        Some(n) => (n + 1) as u64,
        None => 1,
    }
}

/// The record of the process `pid` that a tick at `ts_nanos` makes.
pub open spec fn record_of(
    pid: u32,
    info: ProcInfo,
    ts_nanos: u128,
    user: Option<Seq<char>>,
    children: Seq<u32>,
    slow: Option<SlowView>,
) -> RecordView {
    RecordView {
        ts_nanos,
        pid,
        ppid: info.parent,
        name: info.name@,
        user,
        status: info.status.label_text(),
        cpu_bits: info.cpu_bits,
        mem_rss: info.memory,
        mem_vms: info.virtual_memory,
        num_threads: thread_count(info.tasks),
        create_time: info.start_time,
        cwd: if let Some(fields) = slow {
            fields.cwd
        } else {
            None
        },
        num_fds: if let Some(fields) = slow {
            fields.num_fds
        } else {
            None
        },
        children,
    }
}

/// The view of optional slow fields.
pub open spec fn opt_slow(slow: Option<&SlowFields>) -> Option<SlowView> {
    match slow {
        Some(fields) => Some(fields@),
        None => None,
    }
}

/// Makes the record of a process whose user is known.
pub fn make_record(
    pid: u32,
    info: &ProcInfo,
    ts_nanos: u128,
    user: Option<String>,
    children: &Vec<u32>,
    slow: Option<&SlowFields>,
) -> (record: ProcRecord)
    ensures
        record@ == record_of(pid, *info, ts_nanos, opt_text(user), children@, opt_slow(slow)),
        record.pid == pid,
        record.ppid == info.parent,
        record.name@ == info.name@,
        record.cpu_bits == info.cpu_bits,
        record.mem_rss == info.memory,
        record.mem_vms == info.virtual_memory,
        record.create_time == info.start_time,
        record.ts_nanos == ts_nanos,
        record.children@ == children@,
{
    let (cwd, num_fds) = match slow {
        Some(fields) => (fields.cwd.clone(), fields.num_fds),
        None => (None, None),
    };
    let num_threads: u64 = match info.tasks {
        Some(n) => n as u64 + 1,
        None => 1,
    };
    let record = ProcRecord {
        ts_nanos,
        pid,
        ppid: info.parent,
        name: info.name.clone(),
        user,
        status: info.status.label(),
        cpu_bits: info.cpu_bits,
        mem_rss: info.memory,
        mem_vms: info.virtual_memory,
        num_threads,
        create_time: info.start_time,
        cwd,
        num_fds,
        children: children.clone(),
    };
    assert(record.children@ =~= children@);
    record
}

/// The name of a user, looked up in the system's user database.
///
/// Calls `uzers::get_user_by_uid`. What comes back is the database's affair: the
/// contract claims nothing of it.
#[verifier::external_body]
fn system_user_name(uid: u32) -> (name: Option<String>) {
    uzers::get_user_by_uid(uid).map(|user| user.name().to_string_lossy().into_owned())
}

/// The names of the users met so far. A user without a name is remembered too.
pub struct UserCache {
    cache: HashMap<u32, Option<String>>,
}

impl View for UserCache {
    type V = Map<u32, Option<Seq<char>>>;

    closed spec fn view(&self) -> Map<u32, Option<Seq<char>>> {
        self.cache@.map_values(|name: Option<String>| opt_text(name))
    }
}

/// The cache once `uid` is known: what is remembered stays, and what is not is taken
/// to be `fetched`.
pub open spec fn with_user(
    cache: Map<u32, Option<Seq<char>>>,
    uid: u32,
    fetched: Option<Seq<char>>,
) -> Map<u32, Option<Seq<char>>> {
    if cache.contains_key(uid) {
        cache
    } else {
        cache.insert(uid, fetched)
    }
}

impl UserCache {
    /// A cache that knows nobody.
    pub fn new() -> (cache: UserCache)
        ensures
            cache@ == Map::<u32, Option<Seq<char>>>::empty(),
    {
        let cache = UserCache { cache: HashMap::new() };
        assert(cache@ =~= Map::<u32, Option<Seq<char>>>::empty());
        cache
    }

    /// The remembered name of `uid`, if it has been met: the outer `None` is for a user
    /// that has not.
    fn recall(&self, uid: u32) -> (name: Option<Option<String>>)
        ensures
            name is Some <==> self@.contains_key(uid),
            name is Some ==> opt_text(name->0) == self@[uid],
    {
        match self.cache.get(&uid) {
            Some(name) => Some(name.clone()),
            None => None,
        }
    }

    /// Remembers `fetched` as the name of `uid` unless it has been met before, and
    /// returns the name that is remembered.
    pub fn remember(&mut self, uid: u32, fetched: Option<String>) -> (name: Option<String>)
        ensures
            final(self)@ == with_user(old(self)@, uid, opt_text(fetched)),
            opt_text(name) == final(self)@[uid],
    {
        match self.recall(uid) {
            Some(name) => name,
            None => {
                let name = fetched.clone();
                self.cache.insert(uid, fetched);
                assert(self@ =~= with_user(old(self)@, uid, opt_text(fetched)));
                name
            },
        }
    }

    /// The name of `uid`. The user database is asked the first time only.
    pub fn lookup(&mut self, uid: u32) -> (name: Option<String>)
        ensures
            final(self)@ == with_user(old(self)@, uid, opt_text(name)),
            opt_text(name) == final(self)@[uid],
    {
        match self.recall(uid) {
            Some(name) => name,
            None => {
                let fetched = system_user_name(uid);
                self.remember(uid, fetched)
            },
        }
    }
}

/// The cache after the user of a process has been looked up and found to be `user`.
pub open spec fn after_lookup(
    cache: Map<u32, Option<Seq<char>>>,
    uid: Option<u32>,
    user: Option<Seq<char>>,
) -> Map<u32, Option<Seq<char>>> {
    match uid {
        Some(id) => with_user(cache, id, user),
        None => cache,
    }
}

/// `user` is what `cache` holds for a process's user.
pub open spec fn user_known_as(
    cache: Map<u32, Option<Seq<char>>>,
    uid: Option<u32>,
    user: Option<Seq<char>>,
) -> bool {
    match uid {
        Some(id) => cache.contains_key(id) && cache[id] == user,
        None => user is None,
    }
}

/// Makes the record of a process, whose user is looked up.
pub fn build_record(
    pid: u32,
    info: &ProcInfo,
    ts_nanos: u128,
    user_cache: &mut UserCache,
    children: &Vec<u32>,
    slow: Option<&SlowFields>,
) -> (record: ProcRecord)
    ensures
        record@ == record_of(pid, *info, ts_nanos, record@.user, children@, opt_slow(slow)),
        final(user_cache)@ == after_lookup(old(user_cache)@, info.uid, record@.user),
        user_known_as(final(user_cache)@, info.uid, record@.user),
        record.pid == pid,
        record.ppid == info.parent,
        record.name@ == info.name@,
        record.cpu_bits == info.cpu_bits,
        record.mem_rss == info.memory,
        record.mem_vms == info.virtual_memory,
        record.create_time == info.start_time,
        record.ts_nanos == ts_nanos,
        record.children@ == children@,
{
    let user = match info.uid {
        Some(uid) => user_cache.lookup(uid),
        None => None,
    };
    make_record(pid, info, ts_nanos, user, children, slow)
}

/// Once a user is known, later answers of the user database change nothing.
pub proof fn law_user_is_asked_once(
    cache: Map<u32, Option<Seq<char>>>,
    uid: u32,
    first: Option<Seq<char>>,
    later: Option<Seq<char>>,
)
    ensures
        with_user(with_user(cache, uid, first), uid, later) == with_user(cache, uid, first),
{
}

/// Looking one user up leaves what is known of the others as it is.
pub proof fn law_lookup_keeps_the_others(
    cache: Map<u32, Option<Seq<char>>>,
    uid: u32,
    fetched: Option<Seq<char>>,
    other: u32,
)
    requires
        other != uid,
    ensures
        with_user(cache, uid, fetched).contains_key(other) == cache.contains_key(other),
        cache.contains_key(other) ==> with_user(cache, uid, fetched)[other] == cache[other],
{
}

/// The first answer of the user database is the one that is remembered, whatever it is.
pub proof fn law_first_answer_is_remembered(
    cache: Map<u32, Option<Seq<char>>>,
    uid: u32,
    fetched: Option<Seq<char>>,
)
    requires
        !cache.contains_key(uid),
    ensures
        with_user(cache, uid, fetched).contains_key(uid),
        with_user(cache, uid, fetched)[uid] == fetched,
{
}

/// What is remembered of a user stays, whatever the user database says now.
pub proof fn law_remembered_user_stays(
    cache: Map<u32, Option<Seq<char>>>,
    uid: u32,
    fetched: Option<Seq<char>>,
)
    requires
        cache.contains_key(uid),
    ensures
        with_user(cache, uid, fetched).contains_key(uid),
        with_user(cache, uid, fetched)[uid] == cache[uid],
{
}

/// A record shows the name that is remembered of the user of its process, and none where
/// the process has no user. Nobody else is looked up on the way.
pub proof fn law_record_shows_the_remembered_user(
    cache: Map<u32, Option<Seq<char>>>,
    uid: Option<u32>,
    user: Option<Seq<char>>,
)
    requires
        user_known_as(after_lookup(cache, uid, user), uid, user),
    ensures
        uid is None ==> user is None && after_lookup(cache, uid, user) == cache,
        uid is Some && cache.contains_key(uid->0) ==> user == cache[uid->0] && after_lookup(
            cache,
            uid,
            user,
        ) == cache,
        uid is Some && !cache.contains_key(uid->0) ==> after_lookup(cache, uid, user)
            == cache.insert(uid->0, user),
{
}

/// A user whose name is known, or that has none, stands so in the record: every name can.
pub proof fn law_every_name_can_be_shown(
    cache: Map<u32, Option<Seq<char>>>,
    uid: u32,
    user: Option<Seq<char>>,
)
    requires
        cache.contains_key(uid) ==> cache[uid] == user,
    ensures
        user_known_as(after_lookup(cache, Some(uid), user), Some(uid), user),
{
}

/// A record repeats what was reported of the process, whatever the values are: its parent,
/// its name, its CPU usage, its memory and the time it started.
pub proof fn law_record_stands_as_reported(
    pid: u32,
    info: ProcInfo,
    ts_nanos: u128,
    user: Option<Seq<char>>,
    children: Seq<u32>,
    slow: Option<SlowView>,
    record: ProcRecord,
)
    requires
        record@ == record_of(pid, info, ts_nanos, user, children, slow),
    ensures
        record.ts_nanos == ts_nanos,
        record.pid == pid,
        record.ppid == info.parent,
        record.name@ == info.name@,
        record.cpu_bits == info.cpu_bits,
        record.mem_rss == info.memory,
        record.mem_vms == info.virtual_memory,
        record.create_time == info.start_time,
        record.children@ == children,
        record.user is Some <==> user is Some,
        user is Some ==> record.user->0@ == user->0,
{
}

/// The threads of a process are its main thread and its other tasks. Of one whose tasks are
/// not known, the main thread counts.
pub proof fn law_threads_are_the_main_one_and_the_tasks(
    pid: u32,
    info: ProcInfo,
    ts_nanos: u128,
    user: Option<Seq<char>>,
    children: Seq<u32>,
    slow: Option<SlowView>,
)
    ensures
        info.tasks is Some ==> record_of(pid, info, ts_nanos, user, children, slow).num_threads
            == info.tasks->0 + 1,
        info.tasks is None ==> record_of(pid, info, ts_nanos, user, children, slow).num_threads
            == 1,
{
}

/// A record shows the working directory and the number of open files that were found, and
/// neither where they were not looked for.
pub proof fn law_record_shows_the_slow_fields(
    pid: u32,
    info: ProcInfo,
    ts_nanos: u128,
    user: Option<Seq<char>>,
    children: Seq<u32>,
    found: Option<&SlowFields>,
    record: ProcRecord,
)
    requires
        record@ == record_of(pid, info, ts_nanos, user, children, opt_slow(found)),
    ensures
        found is None ==> record.cwd is None && record.num_fds is None,
        found is Some ==> record.num_fds == found->0.num_fds,
        found is Some ==> (record.cwd is Some <==> found->0.cwd is Some),
        found is Some && found->0.cwd is Some ==> record.cwd->0@ == found->0.cwd->0@,
{
}

/// The text of a state that is not known names its number, and no other number.
pub proof fn law_unknown_state_shows_its_number(code: u32)
    ensures
        ProcStatus::Unknown(code).label_text().len() > 9,
        ProcStatus::Unknown(code).label_text().take(8) == "unknown("@,
        ProcStatus::Unknown(code).label_text().last() == ')',
        forall|i: int|
            8 <= i < ProcStatus::Unknown(code).label_text().len() - 1 ==> is_digit(
                #[trigger] ProcStatus::Unknown(code).label_text()[i],
            ),
        numeral_value(
            ProcStatus::Unknown(code).label_text().subrange(
                8,
                ProcStatus::Unknown(code).label_text().len() - 1,
            ),
        ) == code,
{
    reveal_strlit("unknown(");
    reveal_strlit(")");
    let number = decimal(code as nat);
    let text = ProcStatus::Unknown(code).label_text();
    lemma_decimal_digits(code as nat);
    lemma_decimal_value(code as nat);
    assert(text.take(8) =~= "unknown("@);
    assert(text.subrange(8, text.len() - 1) =~= number);
    assert forall|i: int| 8 <= i < text.len() - 1 implies is_digit(#[trigger] text[i]) by {
        assert(text[i] == number[i - 8]);
    }
}

proof fn lemma_text_of_state(status: ProcStatus)
    ensures
        status.label_text().len() > 2,
        match status {
            ProcStatus::Idle => status.label_text().len() == 4 && status.label_text()[0] == 'i',
            ProcStatus::Run => status.label_text().len() == 3 && status.label_text()[0] == 'r',
            ProcStatus::Sleep => status.label_text().len() == 5 && status.label_text()[0] == 's',
            ProcStatus::Stop => status.label_text().len() == 4 && status.label_text()[0] == 's',
            ProcStatus::Zombie => status.label_text().len() == 6 && status.label_text()[0] == 'z',
            ProcStatus::Tracing => status.label_text().len() == 7 && status.label_text()[0] == 't',
            ProcStatus::Dead => status.label_text().len() == 4 && status.label_text()[0] == 'd',
            ProcStatus::Wakekill => status.label_text().len() == 8 && status.label_text()[0] == 'w',
            ProcStatus::Waking => status.label_text().len() == 6 && status.label_text()[0] == 'w',
            ProcStatus::Parked => status.label_text().len() == 6 && status.label_text()[0] == 'p',
            ProcStatus::LockBlocked => status.label_text().len() == 11 && status.label_text()[0] == 'l',
            ProcStatus::UninterruptibleDiskSleep => status.label_text().len() == 24 && status.label_text()[0] == 'u',
            ProcStatus::Suspended => status.label_text().len() == 9 && status.label_text()[0] == 's',
            ProcStatus::Unknown(_) => true,
        },
        status is Unknown <==> status.label_text().last() == ')',
{
    reveal_strlit("idle");
    reveal_strlit("run");
    reveal_strlit("sleep");
    reveal_strlit("stop");
    reveal_strlit("zombie");
    reveal_strlit("tracing");
    reveal_strlit("dead");
    reveal_strlit("wakekill");
    reveal_strlit("waking");
    reveal_strlit("parked");
    reveal_strlit("lockblocked");
    reveal_strlit("uninterruptibledisksleep");
    reveal_strlit("suspended");
    if let ProcStatus::Unknown(code) = status {
        law_unknown_state_shows_its_number(code);
    }
}

/// Two states with the same text are the same state.
pub proof fn law_texts_tell_states_apart(one: ProcStatus, other: ProcStatus)
    requires
        one.label_text() == other.label_text(),
    ensures
        one == other,
{
    lemma_text_of_state(one);
    lemma_text_of_state(other);
    if let ProcStatus::Unknown(a) = one {
        if let ProcStatus::Unknown(b) = other {
            law_unknown_state_shows_its_number(a);
            law_unknown_state_shows_its_number(b);
        }
    }
}

/// An optional string holds a text exactly where it is there: an empty one is there too.
pub proof fn law_strings_hold_their_texts(text: Option<String>)
    ensures
        opt_text(text) is Some <==> text is Some,
        text is Some ==> opt_text(text)->0 == text->0@,
{
}

} // verus!
