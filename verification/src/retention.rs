//! Which files are too old to keep, and when to look for them.

use vstd::prelude::*;

use crate::paths::extension;
use crate::paths::extension_of;
use crate::paths::law_extension_follows_the_last_dot;
use crate::text::same_text;

verus! {

/// A file of a directory.
#[derive(Debug, Clone)]
pub struct FileEntry {
    /// Its name without the directory.
    pub name: String,
    /// When it was last modified, in seconds since the Unix epoch, where that is known.
    pub mtime: Option<u64>,
}

/// The point in time before which a file is too old.
pub open spec fn cutoff_at(now_secs: u64, retention_days: u64) -> int {
    if now_secs >= retention_days * 86400 {
        now_secs - retention_days * 86400
    } else {
        0
    }
}

/// A file is stale if it has the extension and was last modified before the cutoff. A file
/// whose age is unknown is not.
pub open spec fn is_stale(entry: FileEntry, ext: Seq<char>, cutoff: int) -> bool {
    &&& extension(entry.name@) == Some(ext)
    &&& entry.mtime matches Some(mtime) && mtime < cutoff
}

/// The places of the files that are to be removed: those of the given extension that were
/// last modified more than `retention_days` days ago.
pub fn purge_old_files(
    entries: &Vec<FileEntry>,
    ext: &str,
    now_secs: u64,
    retention_days: u64,
) -> (stale: Vec<usize>)
    ensures
        forall|k: usize|
            k < entries@.len() ==> (#[trigger] stale@.contains(k) <==> is_stale(
                entries@[k as int],
                ext@,
                cutoff_at(now_secs, retention_days),
            )),
        forall|i: int| 0 <= i < stale@.len() ==> #[trigger] stale@[i] < entries@.len(),
        forall|i: int, j: int| 0 <= i < j < stale@.len() ==> stale@[i] < stale@[j],
{
    let age: u64 = match retention_days.checked_mul(86400) {
        Some(secs) => secs,
        None => u64::MAX,
    };
    let cutoff: u64 = if now_secs >= age {
        now_secs - age
    } else {
        0
    };
    let mut stale: Vec<usize> = Vec::new();
    let mut k: usize = 0;
    while k < entries.len()
        invariant
            k <= entries.len(),
            cutoff == cutoff_at(now_secs, retention_days),
            forall|m: usize|
                m < k ==> (#[trigger] stale@.contains(m) <==> is_stale(
                    entries@[m as int],
                    ext@,
                    cutoff as int,
                )),
            forall|i: int| 0 <= i < stale@.len() ==> #[trigger] stale@[i] < k,
            forall|i: int, j: int| 0 <= i < j < stale@.len() ==> stale@[i] < stale@[j],
        decreases entries.len() - k,
    {
        let entry = &entries[k];
        let has_ext = match extension_of(entry.name.as_str()) {
            Some(found) => same_text(found.as_str(), ext),
            None => false,
        };
        let mtime: u64 = match entry.mtime {
            Some(t) => t,
            None => u64::MAX,
        };
        let ghost before = stale@;
        if has_ext && mtime < cutoff {
            stale.push(k);
            assert(stale@[before.len() as int] == k);
            assert forall|m: usize| m < k implies (#[trigger] stale@.contains(m)
                <==> before.contains(m)) by {
                if before.contains(m) {
                    let i = choose|i: int| 0 <= i < before.len() && before[i] == m;
                    assert(stale@[i] == m);
                }
            }
        } else {
            assert(!is_stale(entries@[k as int], ext@, cutoff as int));
            assert(!stale@.contains(k));
        }
        k = k + 1;
    }
    stale
}

/// Remembers on which day old files were last looked for.
#[derive(Debug, Clone)]
pub struct DailyRetention {
    /// The days that files are kept; zero keeps them forever.
    pub days: u64,
    /// The day of the last look, or of the start.
    pub last_date: String,
}

/// Whether old files are to be looked for on the day `today`.
pub open spec fn purge_is_due(days: u64, last_date: Seq<char>, today: Seq<char>) -> bool {
    days > 0 && today != last_date
}

impl DailyRetention {
    /// Nothing is looked for on the day of the start.
    pub fn new(days: u64, today: String) -> (retention: DailyRetention)
        ensures
            retention.days == days,
            retention.last_date@ == today@,
    {
        DailyRetention { days, last_date: today }
    }

    /// Whether old files are to be looked for now: on the first call of each new day.
    pub fn due(&mut self, today: &str) -> (due: bool)
        ensures
            due == purge_is_due(old(self).days, old(self).last_date@, today@),
            final(self).days == old(self).days,
            final(self).last_date@ == (if due {
                today@
            } else {
                old(self).last_date@
            }),
    {
        if self.days == 0 || same_text(today, self.last_date.as_str()) {
            return false;
        }
        self.last_date = today.to_owned();
        true
    }
}

/// A file that is younger than the retention, of another extension or of unknown age is
/// never removed.
pub proof fn law_purge_spares_the_rest(
    entry: FileEntry,
    ext: Seq<char>,
    now_secs: u64,
    retention_days: u64,
)
    requires
        (entry.mtime matches Some(mtime) && mtime + retention_days * 86400 >= now_secs)
            || extension(entry.name@) != Some(ext) || entry.mtime is None,
    ensures
        !is_stale(entry, ext, cutoff_at(now_secs, retention_days)),
{
}

/// A retention that reaches back beyond the Unix epoch removes nothing, however long it is.
pub proof fn law_long_retention_removes_nothing(
    entry: FileEntry,
    ext: Seq<char>,
    now_secs: u64,
    retention_days: u64,
)
    requires
        retention_days * 86400 >= now_secs,
    ensures
        !is_stale(entry, ext, cutoff_at(now_secs, retention_days)),
{
}

/// A retention of zero days keeps everything forever.
pub proof fn law_zero_retention_keeps_forever(last_date: Seq<char>, today: Seq<char>)
    ensures
        !purge_is_due(0, last_date, today),
{
}

/// Old files are looked for at most once a day.
pub proof fn law_purge_is_due_once_a_day(days: u64, today: Seq<char>)
    ensures
        !purge_is_due(days, today, today),
{
}

/// A file is removed exactly where it has the extension and was last modified more than the
/// retention ago.
pub proof fn law_purge_removes_what_is_too_old(
    entry: FileEntry,
    ext: Seq<char>,
    now_secs: u64,
    retention_days: u64,
)
    ensures
        is_stale(entry, ext, cutoff_at(now_secs, retention_days)) <==> {
            &&& extension(entry.name@) == Some(ext)
            &&& entry.mtime is Some
            &&& entry.mtime->0 + retention_days * 86400 < now_secs
        },
{
}

/// Whatever a file of the extension is called, it is removed once it is too old.
pub proof fn law_old_files_are_removed_whatever_their_name(
    entry: FileEntry,
    stem: Seq<char>,
    ext: Seq<char>,
    now_secs: u64,
    retention_days: u64,
)
    requires
        entry.name@ == stem + seq!['.'] + ext,
        stem.len() > 0,
        ext.len() > 0,
        !ext.contains('.'),
        entry.mtime is Some,
        entry.mtime->0 + retention_days * 86400 < now_secs,
    ensures
        is_stale(entry, ext, cutoff_at(now_secs, retention_days)),
{
    law_extension_follows_the_last_dot(stem, ext);
}

/// What is removed now is also removed later, and with a shorter retention.
pub proof fn law_old_files_do_not_get_younger(
    entry: FileEntry,
    ext: Seq<char>,
    now_secs: u64,
    later_secs: u64,
    retention_days: u64,
    fewer_days: u64,
)
    requires
        now_secs <= later_secs,
        fewer_days <= retention_days,
        is_stale(entry, ext, cutoff_at(now_secs, retention_days)),
    ensures
        is_stale(entry, ext, cutoff_at(later_secs, fewer_days)),
{
}

/// On every new day old files are looked for, unless they are kept forever.
pub proof fn law_purge_is_due_on_a_new_day(days: u64, last_date: Seq<char>, today: Seq<char>)
    requires
        days > 0,
        today != last_date,
    ensures
        purge_is_due(days, last_date, today),
{
}

} // verus!
