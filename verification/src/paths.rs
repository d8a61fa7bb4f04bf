//! Paths as text, and the directories that the daemon works in.

use vstd::prelude::*;

use crate::process::opt_text;
use crate::text::chars_of;

verus! {

/// The application's name, which is also the name of its directories.
pub const APP_NAME: &'static str = "macos-proc-monitor";

/// The environment variable that names the data directory.
pub const ENV_FOLDER_DATA: &'static str = "MACOS_PROC_MONITOR_FOLDER_DATA";

/// The environment variable that names the log directory.
pub const ENV_FOLDER_LOG: &'static str = "MACOS_PROC_MONITOR_FOLDER_LOG";

/// Where the directories are when no home directory is known.
pub const SYSTEM_DIR: &'static str = "/var/db/macos-proc-monitor";

/// `part` seen from the directory `base`: an absolute `part` stands for itself, any other
/// follows `base` behind a slash.
pub open spec fn joined(base: Seq<char>, part: Seq<char>) -> Seq<char> {
    if part.len() > 0 && part[0] == '/' {
        part
    } else if base.len() == 0 || base.last() == '/' {
        base + part
    } else {
        base.push('/') + part
    }
}

/// The path of `part` seen from the directory `base`.
pub fn join(base: &str, part: &str) -> (path: String)
    ensures
        path@ == joined(base@, part@),
{
    let part_chars = chars_of(part);
    if part_chars.len() > 0 && part_chars[0] == '/' {
        return part.to_owned();
    }
    let base_chars = chars_of(base);
    let mut path = base.to_owned();
    if base_chars.len() > 0 && base_chars[base_chars.len() - 1] != '/' {
        path.push('/');
    }
    path.append(part);
    path
}

/// The place of the last dot of a name, or -1.
pub open spec fn last_dot(name: Seq<char>) -> int
    decreases name.len(),
{
    if name.len() == 0 {
        -1
    } else if name.last() == '.' {
        name.len() - 1
    } else {
        last_dot(name.drop_last())
    }
}

/// The extension of a file name: what follows its last dot. A name without a dot has
/// none, nor has one whose only dot it begins with, nor the name `..`.
pub open spec fn extension(name: Seq<char>) -> Option<Seq<char>> {
    if last_dot(name) <= 0 || name == seq!['.', '.'] {
        None
    } else {
        Some(name.skip(last_dot(name) + 1))
    }
}

proof fn lemma_last_dot(name: Seq<char>)
    ensures
        -1 <= last_dot(name) < name.len(),
        last_dot(name) >= 0 ==> name[last_dot(name)] == '.',
        forall|i: int| last_dot(name) < i < name.len() ==> name[i] != '.',
    decreases name.len(),
{
    if name.len() > 0 && name.last() != '.' {
        lemma_last_dot(name.drop_last());
        assert forall|i: int| last_dot(name) < i < name.len() implies name[i] != '.' by {
            if i < name.len() - 1 {
                assert(name.drop_last()[i] == name[i]);
            }
        }
    }
}

/// The last dot of a name is where a dot stands and none follows.
pub proof fn lemma_last_dot_at(name: Seq<char>, at: int)
    requires
        0 <= at < name.len(),
        name[at] == '.',
        forall|i: int| at < i < name.len() ==> name[i] != '.',
    ensures
        last_dot(name) == at,
{
    lemma_last_dot(name);
}

/// The extension of a file name.
pub fn extension_of(name: &str) -> (ext: Option<String>)
    ensures
        opt_text(ext) == extension(name@),
{
    let chars = chars_of(name);
    let mut at: usize = chars.len();
    proof {
        lemma_last_dot(name@);
    }
    while at > 0 && chars[at - 1] != '.'
        invariant
            chars@ == name@,
            at <= chars.len(),
            forall|i: int| at <= i < name@.len() ==> name@[i] != '.',
        decreases at,
    {
        at = at - 1;
    }
    // the last dot stands right before `at`, or `at` is zero
    if at <= 1 {
        assert(last_dot(name@) <= 0);
        return None;
    }
    proof {
        lemma_last_dot_at(name@, at - 1);
    }
    if chars.len() == 2 && chars[0] == '.' && chars[1] == '.' {
        assert(name@ =~= seq!['.', '.']);
        return None;
    }
    proof {
        if name@ == seq!['.', '.'] {
            assert(name@.len() == 2 && name@[0] == '.' && name@[1] == '.');
            assert(false);
        }
    }
    let mut ext = String::new();
    let mut i: usize = at;
    while i < chars.len()
        invariant
            chars@ == name@,
            at <= i <= chars.len(),
            ext@ == name@.subrange(at as int, i as int),
        decreases chars.len() - i,
    {
        ext.push(chars[i]);
        i = i + 1;
        assert(ext@ =~= name@.subrange(at as int, i as int));
    }
    assert(ext@ =~= name@.skip(at as int));
    Some(ext)
}

/// A directory by its environment variable, the home directory and the system directory,
/// in this order. A variable that is set counts even where it is empty.
pub open spec fn default_dir_path(
    env_value: Option<Seq<char>>,
    home: Option<Seq<char>>,
    subdir: Seq<char>,
) -> Seq<char> {
    match (env_value, home) {
        (Some(dir), _) => dir,
        (None, Some(dir)) => joined(joined(joined(dir, ".cache"@), APP_NAME@), subdir),
        (None, None) => joined(SYSTEM_DIR@, subdir),
    }
}

/// The view of an optional text.
pub open spec fn opt_str(text: Option<&str>) -> Option<Seq<char>> {
    match text {
        Some(s) => Some(s@),
        None => None,
    }
}

/// The directory for `subdir`, given the value of its environment variable and the home
/// directory.
pub fn default_dir(env_value: Option<&str>, home: Option<&str>, subdir: &str) -> (dir: String)
    ensures
        dir@ == default_dir_path(opt_str(env_value), opt_str(home), subdir@),
{
    match env_value {
        Some(dir) => dir.to_owned(),
        None => match home {
            Some(dir) => {
                let cache = join(dir, ".cache");
                let app = join(cache.as_str(), APP_NAME);
                join(app.as_str(), subdir)
            },
            None => join(SYSTEM_DIR, subdir),
        },
    }
}

/// `etcetera::HomeDirError`, which says that no home directory is known.
#[verifier::external_type_specification]
#[verifier::external_body]
pub struct ExHomeDirError(etcetera::HomeDirError);

/// The cache directory of the current user; `None` where its path is not UTF-8.
///
/// Calls `etcetera::choose_base_strategy` and `cache_dir`. The answer depends on the
/// environment, so the contract claims nothing of it.
#[verifier::external_body]
fn user_cache_dir() -> (dir: Result<Option<String>, etcetera::HomeDirError>) {
    let strategy = etcetera::choose_base_strategy()?;
    let dir = etcetera::BaseStrategy::cache_dir(&strategy);
    Ok(dir.into_os_string().into_string().ok())
}

/// A runtime directory: what its environment variable names, else a directory in the
/// user's cache directory, else one in the system directory. An empty variable counts as
/// not set.
pub open spec fn resolved_dir(
    env_value: Option<Seq<char>>,
    cache: Option<Seq<char>>,
    subdir: Seq<char>,
) -> Seq<char> {
    match (env_value, cache) {
        (Some(dir), _) if dir.len() > 0 => dir,
        (_, Some(dir)) => joined(joined(dir, APP_NAME@), subdir),
        (_, None) => joined(SYSTEM_DIR@, subdir),
    }
}

/// The runtime directory `subdir`, given the value of its environment variable and the
/// user's cache directory.
pub fn resolve_dir_in(env_value: Option<&str>, cache: Option<&str>, subdir: &str) -> (dir: String)
    ensures
        dir@ == resolved_dir(opt_str(env_value), opt_str(cache), subdir@),
{
    if let Some(dir) = env_value {
        if !dir.is_empty() {
            return dir.to_owned();
        }
    }
    match cache {
        Some(base) => {
            let app = join(base, APP_NAME);
            join(app.as_str(), subdir)
        },
        None => join(SYSTEM_DIR, subdir),
    }
}

/// The runtime directory `subdir`, given the value of its environment variable. The cache
/// directory is that of the current user; one whose path is not UTF-8 cannot be held and
/// counts as none.
pub fn resolve_dir(env_value: Option<&str>, subdir: &str) -> (dir: String)
    ensures
        exists|cache: Option<Seq<char>>|
            dir@ == #[trigger] resolved_dir(opt_str(env_value), cache, subdir@),
{
    let cache = match env_value {
        Some(dir) if !dir.is_empty() => None,
        _ => match user_cache_dir() {
            Ok(base) => base,
            Err(_) => None,
        },
    };
    match cache {
        Some(base) => {
            let dir = resolve_dir_in(env_value, Some(base.as_str()), subdir);
            assert(dir@ == resolved_dir(opt_str(env_value), Some(base@), subdir@));
            dir
        },
        None => resolve_dir_in(env_value, None, subdir),
    }
}

/// An environment variable that is set and not empty names the directory, whatever the
/// user's cache directory is.
pub proof fn law_env_override_wins(
    env_value: Seq<char>,
    cache: Option<Seq<char>>,
    subdir: Seq<char>,
)
    requires
        env_value.len() > 0,
    ensures
        resolved_dir(Some(env_value), cache, subdir) == env_value,
{
}

/// Without an override, a directory lies in one that has the application's name.
pub proof fn law_resolved_dir_is_in_the_app_dir(cache: Option<Seq<char>>, subdir: Seq<char>)
    requires
        subdir.len() > 0,
        subdir[0] != '/',
    ensures
        (APP_NAME@.push('/') + subdir).is_suffix_of(resolved_dir(None, cache, subdir)),
{
    reveal_strlit("macos-proc-monitor");
    reveal_strlit("/var/db/macos-proc-monitor");
    let tail = APP_NAME@.push('/') + subdir;
    let dir = resolved_dir(None, cache, subdir);
    match cache {
        Some(base) => {
            let app = joined(base, APP_NAME@);
            assert(app.last() == APP_NAME@.last());
            assert(dir == app.push('/') + subdir);
            let start = dir.len() - tail.len();
            assert(dir.subrange(start, dir.len() as int) =~= tail);
        },
        None => {
            let start = dir.len() - tail.len();
            assert(dir == SYSTEM_DIR@.push('/') + subdir);
            assert(dir.subrange(start, dir.len() as int) =~= tail);
        },
    }
}

/// An absolute path stands for itself in every directory. Another one follows the directory,
/// with one slash between the two.
pub proof fn law_joined_path_follows_its_directory(base: Seq<char>, part: Seq<char>)
    ensures
        part.len() > 0 && part[0] == '/' ==> joined(base, part) == part,
        part.len() == 0 || part[0] != '/' ==> base.is_prefix_of(joined(base, part)),
        part.is_suffix_of(joined(base, part)),
        (part.len() == 0 || part[0] != '/') && base.len() > 0 && base.last() != '/' ==> joined(
            base,
            part,
        ) == base + seq!['/'] + part,
        (part.len() == 0 || part[0] != '/') && (base.len() == 0 || base.last() == '/') ==> joined(
            base,
            part,
        ) == base + part,
{
    let path = joined(base, part);
    if part.len() == 0 || part[0] != '/' {
        assert(path.take(base.len() as int) =~= base);
        assert(path.skip(path.len() - part.len()) =~= part);
        if base.len() > 0 && base.last() != '/' {
            assert(path =~= base + seq!['/'] + part);
        }
    } else {
        assert(path.skip(0) =~= part);
    }
    assert(path.subrange(path.len() - part.len(), path.len() as int) =~= part);
}

/// It does not matter which two of three parts are joined first.
pub proof fn law_joining_is_associative(a: Seq<char>, b: Seq<char>, c: Seq<char>)
    requires
        b.len() > 0,
    ensures
        joined(joined(a, b), c) == joined(a, joined(b, c)),
{
    assert(joined(joined(a, b), c) =~= joined(a, joined(b, c)));
}

/// The extension of a name is what follows its last dot, whatever stands before that.
pub proof fn law_extension_follows_the_last_dot(stem: Seq<char>, ext: Seq<char>)
    requires
        stem.len() > 0,
        !ext.contains('.'),
        !(stem == seq!['.'] && ext.len() == 0),
    ensures
        extension(stem + seq!['.'] + ext) == Some(ext),
{
    let name = stem + seq!['.'] + ext;
    assert forall|i: int| stem.len() < i < name.len() implies name[i] != '.' by {
        assert(ext.contains(ext[i - stem.len() - 1]));
    }
    lemma_last_dot_at(name, stem.len() as int);
    assert(name.skip(stem.len() as int + 1) =~= ext);
    if name == seq!['.', '.'] {
        assert(name.len() == 2);
        assert(stem =~= seq!['.']) by {
            assert(name[0] == stem[0]);
        }
    }
}

/// A name without a dot has no extension, nor has one whose only dot it begins with, nor the
/// name of the directory above.
pub proof fn law_some_names_have_no_extension(name: Seq<char>)
    requires
        !name.contains('.'),
    ensures
        extension(name) is None,
        extension(seq!['.'] + name) is None,
        extension(seq!['.', '.']) is None,
{
    lemma_last_dot(name);
    if last_dot(name) >= 0 {
        assert(name.contains(name[last_dot(name)]));
    }
    let hidden = seq!['.'] + name;
    lemma_last_dot(hidden);
    if last_dot(hidden) > 0 {
        assert(hidden[last_dot(hidden)] == name[last_dot(hidden) - 1]);
        assert(name.contains(name[last_dot(hidden) - 1]));
    }
}

/// The default directory is what the environment variable names, even where that is empty,
/// whatever the home directory is.
pub proof fn law_default_dir_follows_the_variable(
    env_value: Seq<char>,
    home: Option<Seq<char>>,
    subdir: Seq<char>,
)
    ensures
        default_dir_path(Some(env_value), home, subdir) == env_value,
{
}

/// Without the variable, the default directory lies in the cache of the home directory, and
/// without that in the system directory.
pub proof fn law_default_dir_lies_in_the_home_directory(home: Seq<char>, subdir: Seq<char>)
    requires
        home.len() > 0,
        home.last() != '/',
        subdir.len() == 0 || subdir[0] != '/',
    ensures
        default_dir_path(None, Some(home), subdir) == home + "/.cache/macos-proc-monitor/"@
            + subdir,
        default_dir_path(None, None, subdir) == "/var/db/macos-proc-monitor/"@ + subdir,
{
    reveal_strlit(".cache");
    reveal_strlit("macos-proc-monitor");
    reveal_strlit("/.cache/macos-proc-monitor/");
    reveal_strlit("/var/db/macos-proc-monitor");
    reveal_strlit("/var/db/macos-proc-monitor/");
    let cache = joined(home, ".cache"@);
    assert(cache.last() == 'e');
    let app = joined(cache, APP_NAME@);
    assert(app.last() == 'r');
    assert(default_dir_path(None, Some(home), subdir) =~= home + "/.cache/macos-proc-monitor/"@
        + subdir);
    assert(default_dir_path(None, None, subdir) =~= "/var/db/macos-proc-monitor/"@ + subdir);
}

/// Without an override, a directory lies in the user's cache directory, and without that in
/// the system directory. An empty variable is no override.
pub proof fn law_resolved_dir_lies_in_the_cache(cache: Seq<char>, subdir: Seq<char>)
    requires
        cache.len() > 0,
        cache.last() != '/',
        subdir.len() == 0 || subdir[0] != '/',
    ensures
        resolved_dir(None, Some(cache), subdir) == cache + "/macos-proc-monitor/"@ + subdir,
        resolved_dir(None, None, subdir) == "/var/db/macos-proc-monitor/"@ + subdir,
        resolved_dir(Some(Seq::empty()), Some(cache), subdir) == resolved_dir(
            None,
            Some(cache),
            subdir,
        ),
        resolved_dir(Some(Seq::empty()), None, subdir) == resolved_dir(None, None, subdir),
{
    reveal_strlit("macos-proc-monitor");
    reveal_strlit("/macos-proc-monitor/");
    reveal_strlit("/var/db/macos-proc-monitor");
    reveal_strlit("/var/db/macos-proc-monitor/");
    let app = joined(cache, APP_NAME@);
    assert(app.last() == 'r');
    assert(resolved_dir(None, Some(cache), subdir) =~= cache + "/macos-proc-monitor/"@ + subdir);
    assert(resolved_dir(None, None, subdir) =~= "/var/db/macos-proc-monitor/"@ + subdir);
}

/// Whatever the home directory and the cache directory are called, the directories below
/// them are found by joining.
pub proof fn law_directories_are_joined(dir: Seq<char>, subdir: Seq<char>)
    ensures
        default_dir_path(None, Some(dir), subdir) == joined(
            joined(joined(dir, ".cache"@), "macos-proc-monitor"@),
            subdir,
        ),
        default_dir_path(None, None, subdir) == joined("/var/db/macos-proc-monitor"@, subdir),
        resolved_dir(None, Some(dir), subdir) == joined(
            joined(dir, "macos-proc-monitor"@),
            subdir,
        ),
        resolved_dir(Some(Seq::empty()), Some(dir), subdir) == joined(
            joined(dir, "macos-proc-monitor"@),
            subdir,
        ),
        resolved_dir(None, None, subdir) == joined("/var/db/macos-proc-monitor"@, subdir),
        resolved_dir(Some(Seq::empty()), None, subdir) == joined(
            "/var/db/macos-proc-monitor"@,
            subdir,
        ),
{
}

/// An optional text is there exactly where it is given: an empty one is there too.
pub proof fn law_texts_are_there_where_given(text: Option<&str>)
    ensures
        opt_str(text) is Some <==> text is Some,
        text is Some ==> opt_str(text)->0 == text->0@,
{
}

} // verus!
