//! Files that change their name every day.

use vstd::prelude::*;

use crate::paths::extension;
use crate::paths::join;
use crate::paths::joined;
use crate::paths::lemma_last_dot_at;
use crate::process::opt_text;
use crate::text::same_text;

verus! {

/// `{prefix}-{date}.{ext}`.
pub open spec fn dated_name(prefix: Seq<char>, date: Seq<char>, ext: Seq<char>) -> Seq<char> {
    prefix + "-"@ + date + "."@ + ext
}

fn make_dated_name(prefix: &str, date: &str, ext: &str) -> (name: String)
    ensures
        name@ == dated_name(prefix@, date@, ext@),
{
    let mut name = prefix.to_owned();
    name.append("-");
    name.append(date);
    name.append(".");
    name.append(ext);
    name
}

/// The path in `dir` of the file for the day `today`.
pub fn dated_path(dir: &str, prefix: &str, ext: &str, today: &str) -> (path: String)
    ensures
        path@ == joined(dir@, dated_name(prefix@, today@, ext@)),
{
    let name = make_dated_name(prefix, today, ext);
    join(dir, name.as_str())
}

/// A log file that is replaced by a new one every day.
#[derive(Debug, Clone)]
pub struct RotatingLogWriter {
    dir: String,
    current_date: String,
    retention_days: u64,
}

impl RotatingLogWriter {
    /// The directory of the log files.
    pub closed spec fn directory(self) -> Seq<char> {
        self.dir@
    }

    /// The day of the file that is written now.
    pub closed spec fn date(self) -> Seq<char> {
        self.current_date@
    }

    /// The days that log files are kept; zero keeps them forever.
    pub closed spec fn retention(self) -> u64 {
        self.retention_days
    }

    /// Starts a log in `log_dir`, and the path of the file to open for appending.
    pub fn new(log_dir: &str, retention_days: u64, today: &str) -> (log: (
        RotatingLogWriter,
        String,
    ))
        ensures
            log.0.directory() == log_dir@,
            log.0.date() == today@,
            log.0.retention() == retention_days,
            log.1@ == joined(log_dir@, dated_name("monitor"@, today@, "log"@)),
    {
        let path = dated_path(log_dir, "monitor", "log", today);
        let writer = RotatingLogWriter {
            dir: log_dir.to_owned(),
            current_date: today.to_owned(),
            retention_days,
        };
        (writer, path)
    }

    /// The path of the file to change to, if the day has changed.
    pub fn rotate_if_needed(&self, today: &str) -> (path: Option<String>)
        ensures
            opt_text(path) == (if today@ == self.date() {
                None
            } else {
                Some(joined(self.directory(), dated_name("monitor"@, today@, "log"@)))
            }),
    {
        if same_text(today, self.current_date.as_str()) {
            None
        } else {
            Some(dated_path(self.dir.as_str(), "monitor", "log", today))
        }
    }

    /// Takes note that the file of the day `today` has been opened. Says whether old log
    /// files are to be looked for.
    pub fn rotated(&mut self, today: &str) -> (purge: bool)
        ensures
            final(self).directory() == old(self).directory(),
            final(self).retention() == old(self).retention(),
            final(self).date() == today@,
            purge == (old(self).retention() > 0),
    {
        self.current_date = today.to_owned();
        self.retention_days > 0
    }
}

/// A file of any kind that is replaced by a new one every day, unless its path is given.
#[derive(Debug, Clone)]
pub struct RotatingWriter {
    dir: String,
    prefix: String,
    ext: String,
    current_date: String,
    override_path: Option<String>,
}

impl RotatingWriter {
    /// The path of the file for the day `today`.
    pub closed spec fn path_on(self, today: Seq<char>) -> Seq<char> {
        match self.override_path {
            Some(path) => path@,
            None => joined(self.dir@, dated_name(self.prefix@, today, self.ext@)),
        }
    }

    /// Whether the path is given, so that it never changes.
    pub closed spec fn is_fixed(self) -> bool {
        self.override_path is Some
    }

    /// The day of the file that is written now.
    pub closed spec fn date(self) -> Seq<char> {
        self.current_date@
    }

    /// Starts a file, and the path to open for appending.
    pub fn open(
        dir: &str,
        prefix: &str,
        ext: &str,
        override_path: Option<String>,
        today: &str,
    ) -> (writer: (RotatingWriter, String))
        ensures
            writer.0.is_fixed() == (override_path is Some),
            writer.0.date() == today@,
            writer.1@ == writer.0.path_on(today@),
            forall|day: Seq<char>| #[trigger]
                writer.0.path_on(day) == (match override_path {
                    Some(path) => path@,
                    None => joined(dir@, dated_name(prefix@, day, ext@)),
                }),
    {
        let path = match &override_path {
            Some(given) => given.clone(),
            None => dated_path(dir, prefix, ext, today),
        };
        let writer = RotatingWriter {
            dir: dir.to_owned(),
            prefix: prefix.to_owned(),
            ext: ext.to_owned(),
            current_date: today.to_owned(),
            override_path,
        };
        (writer, path)
    }

    /// The path of the file to change to, if the day has changed and the path may.
    pub fn maybe_rotate(&self, today: &str) -> (path: Option<String>)
        ensures
            opt_text(path) == (if self.is_fixed() || today@ == self.date() {
                None
            } else {
                Some(self.path_on(today@))
            }),
    {
        if self.override_path.is_some() || same_text(today, self.current_date.as_str()) {
            return None;
        }
        Some(dated_path(self.dir.as_str(), self.prefix.as_str(), self.ext.as_str(), today))
    }

    /// Takes note that the file of the day `today` has been opened.
    pub fn rotated(&mut self, today: &str)
        ensures
            final(self).date() == today@,
            final(self).is_fixed() == old(self).is_fixed(),
            forall|day: Seq<char>| #[trigger] final(self).path_on(day) == old(self).path_on(day),
    {
        self.current_date = today.to_owned();
    }
}

/// A name that ends in `.log` has the extension by which old log files are found, whatever
/// stands before: so have the files of the rolling log, `monitor.{date}.log`.
pub proof fn law_log_names_have_the_log_extension(stem: Seq<char>)
    requires
        stem.len() > 0,
    ensures
        extension(stem + ".log"@) == Some("log"@),
{
    reveal_strlit(".log");
    reveal_strlit("log");
    let name = stem + ".log"@;
    let at = stem.len() as int;
    assert(name[at] == '.');
    lemma_last_dot_at(name, at);
    assert(name.skip(at + 1) =~= "log"@);
}

/// The files of a [`RotatingLogWriter`] have the extension by which old log files are found.
pub proof fn law_dated_log_files_have_the_log_extension(date: Seq<char>)
    ensures
        extension(dated_name("monitor"@, date, "log"@)) == Some("log"@),
{
    reveal_strlit("monitor");
    reveal_strlit(".");
    reveal_strlit("log");
    reveal_strlit(".log");
    let stem = "monitor"@ + "-"@ + date;
    assert(dated_name("monitor"@, date, "log"@) =~= stem + ".log"@);
    law_log_names_have_the_log_extension(stem);
}

/// The name of a dated file is made of its prefix, its date and its extension, each as it is.
pub proof fn law_dated_name_shows_its_parts(prefix: Seq<char>, date: Seq<char>, ext: Seq<char>)
    ensures
        dated_name(prefix, date, ext).len() == prefix.len() + date.len() + ext.len() + 2,
        dated_name(prefix, date, ext).take(prefix.len() as int) == prefix,
        dated_name(prefix, date, ext)[prefix.len() as int] == '-',
        dated_name(prefix, date, ext).subrange(
            prefix.len() as int + 1,
            (prefix.len() + 1 + date.len()) as int,
        ) == date,
        dated_name(prefix, date, ext)[(prefix.len() + 1 + date.len()) as int] == '.',
        dated_name(prefix, date, ext).skip((prefix.len() + date.len() + 2) as int) == ext,
{
    reveal_strlit("-");
    reveal_strlit(".");
    let name = dated_name(prefix, date, ext);
    assert(name.take(prefix.len() as int) =~= prefix);
    assert(name.subrange(prefix.len() as int + 1, (prefix.len() + 1 + date.len()) as int) =~= date);
    assert(name.skip((prefix.len() + date.len() + 2) as int) =~= ext);
}

/// The files of different days have different names.
pub proof fn law_every_day_has_its_own_file(
    prefix: Seq<char>,
    date: Seq<char>,
    other: Seq<char>,
    ext: Seq<char>,
)
    requires
        dated_name(prefix, date, ext) == dated_name(prefix, other, ext),
    ensures
        date == other,
{
    law_dated_name_shows_its_parts(prefix, date, ext);
    law_dated_name_shows_its_parts(prefix, other, ext);
}

} // verus!
