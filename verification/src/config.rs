//! The configuration of the daemon, resolved from built-in defaults, a TOML file, the
//! environment and command-line flags.

use vstd::prelude::*;

use crate::error::CoreError;
use crate::paths::join;
use crate::paths::joined;
use crate::paths::opt_str;
use crate::paths::resolve_dir;
use crate::paths::resolved_dir;
use crate::paths::APP_NAME;
use crate::settings::is_toml;
use crate::settings::variables;
use crate::settings::ConfigFile;
use crate::settings::Layer;
use crate::settings::Setting;

verus! {

/// The bit pattern of 1.0 as a 64-bit IEEE 754 number.
pub const ONE_SECOND_BITS: u64 = 0x3FF0_0000_0000_0000;

/// The resolved configuration of the daemon.
#[derive(Debug, Clone)]
pub struct Config {
    /// The sampling interval in seconds, as the bit pattern of a 64-bit IEEE 754 number.
    pub interval_bits: u64,
    /// The seconds between two collections of working directories and open files.
    pub slow_interval: u64,
    /// Whether `lsof` is run through `sudo`.
    pub sudo: bool,
    /// Whether working directories and open files are never collected.
    pub no_slow: bool,
    /// The only process to watch, with its descendants; `None` for all processes.
    pub pid: Option<u32>,
    /// The days after which data files are deleted; zero keeps them forever.
    pub data_retention: u64,
    /// The days after which log files are deleted; zero keeps them forever.
    pub log_retention: u64,
    /// The seconds between two flushes of buffered records.
    pub flush_interval: u64,
    /// The TCP port of the web dashboard.
    pub port: u16,
    /// The address that the web dashboard listens on.
    pub bind: String,
}

impl Default for Config {
    fn default() -> (config: Config)
        ensures
            config.interval_bits == ONE_SECOND_BITS,
            config.slow_interval == 60,
            !config.sudo,
            !config.no_slow,
            config.pid is None,
            config.data_retention == 7,
            config.log_retention == 7,
            config.flush_interval == 30,
            config.port == 9090,
            config.bind@ == "127.0.0.1"@,
    {
        Config {
            interval_bits: ONE_SECOND_BITS,
            slow_interval: 60,
            sudo: false,
            no_slow: false,
            pid: None,
            data_retention: 7,
            log_retention: 7,
            flush_interval: 30,
            port: 9090,
            bind: "127.0.0.1".to_string(),
        }
    }
}

/// The command-line flags: only those that were given override the other layers.
#[derive(Debug, Clone)]
pub struct ConfigOverrides {
    /// The sampling interval in seconds, as the bit pattern of a 64-bit IEEE 754 number.
    pub interval_bits: Option<u64>,
    pub slow_interval: Option<u64>,
    pub sudo: Option<bool>,
    pub no_slow: Option<bool>,
    pub pid: Option<u32>,
    pub data_retention: Option<u64>,
    pub log_retention: Option<u64>,
    pub flush_interval: Option<u64>,
    pub port: Option<u16>,
    pub bind: Option<String>,
}

impl Default for ConfigOverrides {
    fn default() -> (flags: ConfigOverrides)
        ensures
            flags.interval_bits is None,
            flags.slow_interval is None,
            flags.sudo is None,
            flags.no_slow is None,
            flags.pid is None,
            flags.data_retention is None,
            flags.log_retention is None,
            flags.flush_interval is None,
            flags.port is None,
            flags.bind is None,
    {
        ConfigOverrides {
            interval_bits: None,
            slow_interval: None,
            sudo: None,
            no_slow: None,
            pid: None,
            data_retention: None,
            log_retention: None,
            flush_interval: None,
            port: None,
            bind: None,
        }
    }
}

/// What the layers together say of a setting: a flag wins over the environment, and the
/// environment over the file.
pub open spec fn chosen<T>(flag: Option<T>, env: Setting<T>, file: Setting<T>) -> Setting<T> {
    match flag {
        Some(value) => Setting::Given(value),
        None => if env is Absent {
            file
        } else {
            env
        },
    }
}

fn choose_setting<T>(flag: Option<T>, env: Setting<T>, file: Setting<T>) -> (setting: Setting<T>)
    ensures
        setting == chosen(flag, env, file),
{
    match flag {
        Some(value) => Setting::Given(value),
        None => match env {
            Setting::Absent => file,
            other => other,
        },
    }
}

/// The error of the first of some settings that is invalid, where `rest` is that of the
/// settings after it.
pub open spec fn first_error<T>(setting: Setting<T>, rest: Option<figment::Error>) -> Option<
    figment::Error,
> {
    match setting {
        Setting::Invalid(e) => Some(e),
        _ => rest,
    }
}

/// The error that the layers lead to: that of the first setting, by name, whose value is
/// invalid. A value that a higher layer replaces does no harm.
pub open spec fn layers_error(file: Layer, env: Layer, flags: ConfigOverrides) -> Option<
    figment::Error,
> {
    first_error(
        chosen(flags.bind, env.bind, file.bind),
        first_error(
            chosen(flags.data_retention, env.data_retention, file.data_retention),
            first_error(
                chosen(flags.flush_interval, env.flush_interval, file.flush_interval),
                first_error(
                    chosen(flags.interval_bits, env.interval_bits, file.interval_bits),
                    first_error(
                        chosen(flags.log_retention, env.log_retention, file.log_retention),
                        first_error(
                            chosen(flags.no_slow, env.no_slow, file.no_slow),
                            first_error(
                                chosen(flags.pid, env.pid, file.pid),
                                first_error(
                                    chosen(flags.port, env.port, file.port),
                                    first_error(
                                        chosen(
                                            flags.slow_interval,
                                            env.slow_interval,
                                            file.slow_interval,
                                        ),
                                        first_error(
                                            chosen(flags.sudo, env.sudo, file.sudo),
                                            None,
                                        ),
                                    ),
                                ),
                            ),
                        ),
                    ),
                ),
            ),
        ),
    )
}

/// `value` is what the layers say of a setting, or its default where they say nothing.
pub open spec fn is_set_to<T>(value: T, setting: Setting<T>, default: T) -> bool {
    match setting {
        Setting::Given(given) => value == given,
        Setting::Absent => value == default,
        Setting::Invalid(_) => false,
    }
}

/// `config` is what the layers say of every setting.
pub open spec fn is_resolved(
    config: Config,
    file: Layer,
    env: Layer,
    flags: ConfigOverrides,
) -> bool {
    &&& is_set_to(
        config.interval_bits,
        chosen(flags.interval_bits, env.interval_bits, file.interval_bits),
        ONE_SECOND_BITS,
    )
    &&& is_set_to(
        config.slow_interval,
        chosen(flags.slow_interval, env.slow_interval, file.slow_interval),
        60,
    )
    &&& is_set_to(config.sudo, chosen(flags.sudo, env.sudo, file.sudo), false)
    &&& is_set_to(config.no_slow, chosen(flags.no_slow, env.no_slow, file.no_slow), false)
    &&& match chosen(flags.pid, env.pid, file.pid) {
        Setting::Given(pid) => config.pid == Some(pid),
        Setting::Absent => config.pid is None,
        Setting::Invalid(_) => false,
    }
    &&& is_set_to(
        config.data_retention,
        chosen(flags.data_retention, env.data_retention, file.data_retention),
        7,
    )
    &&& is_set_to(
        config.log_retention,
        chosen(flags.log_retention, env.log_retention, file.log_retention),
        7,
    )
    &&& is_set_to(
        config.flush_interval,
        chosen(flags.flush_interval, env.flush_interval, file.flush_interval),
        30,
    )
    &&& is_set_to(config.port, chosen(flags.port, env.port, file.port), 9090)
    &&& match chosen(flags.bind, env.bind, file.bind) {
        Setting::Given(bind) => config.bind == bind,
        Setting::Absent => config.bind@ == "127.0.0.1"@,
        Setting::Invalid(_) => false,
    }
}

/// `result` is what the layers lead to: their first error, or the configuration.
pub open spec fn resolves_to(
    file: Layer,
    env: Layer,
    flags: ConfigOverrides,
    result: Result<Config, CoreError>,
) -> bool {
    match layers_error(file, env, flags) {
        Some(e) => result == Err::<Config, CoreError>(CoreError::Config(Box::new(e))),
        None => result is Ok && is_resolved(result->Ok_0, file, env, flags),
    }
}

/// The value of a setting, or its default, or its error.
fn value_or<T>(setting: Setting<T>, default: T) -> (value: Result<T, CoreError>)
    ensures
        match setting {
            Setting::Given(given) => value == Ok::<T, CoreError>(given),
            Setting::Absent => value == Ok::<T, CoreError>(default),
            Setting::Invalid(e) => value == Err::<T, CoreError>(CoreError::Config(Box::new(e))),
        },
{
    match setting {
        Setting::Given(given) => Ok(given),
        Setting::Absent => Ok(default),
        Setting::Invalid(e) => Err(CoreError::from(e)),
    }
}

/// The configuration directory of the current user; `None` where its path is not UTF-8.
///
/// Calls `etcetera::choose_base_strategy` and `config_dir`. The answer depends on the
/// environment, so the contract claims nothing of it.
#[verifier::external_body]
fn user_config_dir() -> (dir: Result<Option<String>, etcetera::HomeDirError>) {
    let strategy = etcetera::choose_base_strategy()?;
    let dir = etcetera::BaseStrategy::config_dir(&strategy);
    Ok(dir.into_os_string().into_string().ok())
}

/// The message of a missing home directory.
///
/// Calls `etcetera::HomeDirError`'s `to_string`, which has one fixed text.
#[verifier::external_body]
fn home_error_text(e: &etcetera::HomeDirError) -> (text: String)
    ensures
        text@ == NO_HOME@,
{
    e.to_string()
}

/// The message for a user without a home directory.
pub const NO_HOME: &'static str = "could not locate home directory";

/// The message for a directory whose path is not UTF-8.
pub const NOT_UTF8: &'static str = "the path of the configuration directory is not UTF-8";

/// The errors of looking for the configuration directory.
pub open spec fn is_directory_error(e: CoreError) -> bool {
    e matches CoreError::Dirs(detail) && (detail@ == NO_HOME@ || detail@ == NOT_UTF8@)
}

impl Config {
    /// The configuration directory of the application, given what was found of that of the
    /// user. It is an error if no home directory is known, or if the path is not UTF-8, so
    /// that the library cannot hold it.
    pub fn config_dir_from(found: Result<Option<String>, etcetera::HomeDirError>) -> (dir: Result<
        String,
        CoreError,
    >)
        ensures
            match found {
                Ok(Some(base)) => dir is Ok && dir->Ok_0@ == joined(base@, APP_NAME@),
                Ok(None) => dir is Err && (dir->Err_0 matches CoreError::Dirs(d)
                    && d@ == NOT_UTF8@),
                Err(_) => dir is Err && (dir->Err_0 matches CoreError::Dirs(d) && d@ == NO_HOME@),
            },
    {
        match found {
            Ok(Some(base)) => Ok(join(base.as_str(), APP_NAME)),
            Ok(None) => Err(CoreError::Dirs(NOT_UTF8.to_owned())),
            Err(e) => Err(CoreError::Dirs(home_error_text(&e))),
        }
    }

    /// The configuration directory of the application, `~/.config/macos-proc-monitor` by
    /// default.
    pub fn config_dir() -> (dir: Result<String, CoreError>)
        ensures
            match dir {
                Ok(path) => exists|base: Seq<char>| path@ == #[trigger] joined(base, APP_NAME@),
                Err(e) => is_directory_error(e),
            },
    {
        Config::config_dir_from(user_config_dir())
    }

    /// The path of the configuration file: the one that was asked for, else `config.toml`
    /// in the configuration directory `dir`, or the error of looking for that.
    pub fn config_file_from(
        config_path: Option<&str>,
        dir: Result<String, CoreError>,
    ) -> (path: Result<String, CoreError>)
        ensures
            match (config_path, dir) {
                (Some(asked), _) => path is Ok && path->Ok_0@ == asked@,
                (None, Ok(found)) => path is Ok && path->Ok_0@ == joined(found@, "config.toml"@),
                (None, Err(e)) => path == Err::<String, CoreError>(e),
            },
    {
        match config_path {
            Some(asked) => Ok(asked.to_owned()),
            None => match dir {
                Ok(found) => Ok(join(found.as_str(), "config.toml")),
                Err(e) => Err(e),
            },
        }
    }

    /// The path of the configuration file: the one that was asked for, else `config.toml`
    /// in the configuration directory, which is looked for only then.
    pub fn config_file(config_path: Option<&str>) -> (path: Result<String, CoreError>)
        ensures
            match (config_path, path) {
                (Some(asked), _) => path is Ok && path->Ok_0@ == asked@,
                (None, Ok(found)) => exists|base: Seq<char>|
                    found@ == joined(#[trigger] joined(base, APP_NAME@), "config.toml"@),
                (None, Err(e)) => is_directory_error(e),
            },
    {
        match config_path {
            Some(asked) => Ok(asked.to_owned()),
            None => Config::config_file_from(None, Config::config_dir()),
        }
    }

    /// The configuration that a file layer, an environment layer and the flags lead to.
    pub fn resolve(file: Layer, env: Layer, overrides: &ConfigOverrides) -> (result: Result<
        Config,
        CoreError,
    >)
        ensures
            resolves_to(file, env, *overrides, result),
    {
        let defaults = Config::default();
        let bind = match value_or(
            choose_setting(overrides.bind.clone(), env.bind, file.bind),
            defaults.bind,
        ) {
            Ok(value) => value,
            Err(e) => return Err(e),
        };
        let data_retention: u64 = match value_or(
            choose_setting(overrides.data_retention, env.data_retention, file.data_retention),
            defaults.data_retention,
        ) {
            Ok(value) => value,
            Err(e) => return Err(e),
        };
        let flush_interval: u64 = match value_or(
            choose_setting(overrides.flush_interval, env.flush_interval, file.flush_interval),
            defaults.flush_interval,
        ) {
            Ok(value) => value,
            Err(e) => return Err(e),
        };
        let interval_bits: u64 = match value_or(
            choose_setting(overrides.interval_bits, env.interval_bits, file.interval_bits),
            defaults.interval_bits,
        ) {
            Ok(value) => value,
            Err(e) => return Err(e),
        };
        let log_retention: u64 = match value_or(
            choose_setting(overrides.log_retention, env.log_retention, file.log_retention),
            defaults.log_retention,
        ) {
            Ok(value) => value,
            Err(e) => return Err(e),
        };
        let no_slow = match value_or(
            choose_setting(overrides.no_slow, env.no_slow, file.no_slow),
            defaults.no_slow,
        ) {
            Ok(value) => value,
            Err(e) => return Err(e),
        };
        let pid = match choose_setting(overrides.pid, env.pid, file.pid) {
            Setting::Given(value) => Some(value),
            Setting::Absent => None,
            Setting::Invalid(e) => return Err(CoreError::from(e)),
        };
        let port: u16 = match value_or(
            choose_setting(overrides.port, env.port, file.port),
            defaults.port,
        ) {
            Ok(value) => value,
            Err(e) => return Err(e),
        };
        let slow_interval: u64 = match value_or(
            choose_setting(overrides.slow_interval, env.slow_interval, file.slow_interval),
            defaults.slow_interval,
        ) {
            Ok(value) => value,
            Err(e) => return Err(e),
        };
        let sudo = match value_or(
            choose_setting(overrides.sudo, env.sudo, file.sudo),
            defaults.sudo,
        ) {
            Ok(value) => value,
            Err(e) => return Err(e),
        };
        Ok(
            Config {
                interval_bits,
                slow_interval,
                sudo,
                no_slow,
                pid,
                data_retention,
                log_retention,
                flush_interval,
                port,
                bind,
            },
        )
    }

    /// Loads the configuration: the flags win over the environment, this over the file, and
    /// that over the defaults. Without a file the file layer says nothing.
    ///
    /// `vars` are the settings of the environment: the names of the variables with
    /// [`ENV_PREFIX`](crate::settings::ENV_PREFIX), without it and in small letters, and
    /// their values. The sampling interval of the file and of the environment, a
    /// floating-point number, is read by the caller.
    pub fn load(
        file: Option<&ConfigFile>,
        vars: &Vec<(String, String)>,
        file_interval: Setting<u64>,
        env_interval: Setting<u64>,
        overrides: &ConfigOverrides,
    ) -> (result: Result<Config, CoreError>)
        ensures
            match file {
                None => exists|lower: Layer, upper: Layer|
                    {
                        &&& lower.is_empty()
                        &&& upper.is_of_env(variables(vars@))
                        &&& upper.interval_bits == env_interval
                        &&& #[trigger] resolves_to(lower, upper, *overrides, result)
                    },
                Some(f) => if is_toml(f.text@) {
                    exists|lower: Layer, upper: Layer|
                        {
                            &&& lower.is_of_file(f.text@)
                            &&& lower.interval_bits == file_interval
                            &&& upper.is_of_env(variables(vars@))
                            &&& upper.interval_bits == env_interval
                            &&& #[trigger] resolves_to(lower, upper, *overrides, result)
                        }
                } else {
                    result is Err && result->Err_0 is Config
                },
            },
    {
        let upper = Layer::of_env(vars, env_interval);
        let lower = match file {
            None => Layer::empty(),
            Some(f) => {
                match f.check() {
                    Ok(_) => {},
                    Err(e) => return Err(CoreError::from(e)),
                }
                Layer::of_file(f, file_interval)
            },
        };
        let result = Config::resolve(lower, upper, overrides);
        assert(resolves_to(lower, upper, *overrides, result));
        result
    }

    /// The directory of the data files, given the value of the environment variable
    /// `MACOS_PROC_MONITOR_FOLDER_DATA`.
    pub fn data_dir(&self, env_value: Option<&str>) -> (dir: String)
        ensures
            exists|cache: Option<Seq<char>>|
                dir@ == #[trigger] resolved_dir(opt_str(env_value), cache, "data"@),
    {
        resolve_dir(env_value, "data")
    }

    /// The directory of the log files, given the value of the environment variable
    /// `MACOS_PROC_MONITOR_FOLDER_LOG`.
    pub fn log_dir(&self, env_value: Option<&str>) -> (dir: String)
        ensures
            exists|cache: Option<Seq<char>>|
                dir@ == #[trigger] resolved_dir(opt_str(env_value), cache, "logs"@),
    {
        resolve_dir(env_value, "logs")
    }
}

/// A flag always wins: nothing in the file or the environment changes what it says.
pub proof fn law_flag_always_wins<T>(value: T, env: Setting<T>, file: Setting<T>)
    ensures
        chosen(Some(value), env, file) == Setting::Given(value),
{
}

/// Without a flag, what the environment says holds, whatever stands in the file.
pub proof fn law_environment_beats_file<T>(env: Setting<T>, file: Setting<T>)
    requires
        !(env is Absent),
    ensures
        chosen(None, env, file) == env,
{
}

/// Where neither a flag nor the environment says anything, the file holds.
pub proof fn law_file_beats_default<T>(file: Setting<T>)
    ensures
        chosen(None, Setting::Absent, file) == file,
{
}

/// With no file, no environment variables and no flags, every setting has its default.
pub proof fn law_nothing_given_is_the_default(
    file: Layer,
    env: Layer,
    flags: ConfigOverrides,
    result: Result<Config, CoreError>,
)
    requires
        file.is_empty(),
        env.is_empty(),
        flags.interval_bits is None,
        flags.slow_interval is None,
        flags.sudo is None,
        flags.no_slow is None,
        flags.pid is None,
        flags.data_retention is None,
        flags.log_retention is None,
        flags.flush_interval is None,
        flags.port is None,
        flags.bind is None,
        resolves_to(file, env, flags, result),
    ensures
        result is Ok,
        result->Ok_0.interval_bits == ONE_SECOND_BITS,
        result->Ok_0.slow_interval == 60,
        !result->Ok_0.sudo,
        !result->Ok_0.no_slow,
        result->Ok_0.pid is None,
        result->Ok_0.data_retention == 7,
        result->Ok_0.log_retention == 7,
        result->Ok_0.flush_interval == 30,
        result->Ok_0.port == 9090,
        result->Ok_0.bind@ == "127.0.0.1"@,
{
}

/// The configuration is loaded exactly where no value that counts is invalid.
pub proof fn law_loads_unless_a_value_that_counts_is_invalid(
    file: Layer,
    env: Layer,
    flags: ConfigOverrides,
    result: Result<Config, CoreError>,
)
    requires
        resolves_to(file, env, flags, result),
    ensures
        result is Err <==> {
            ||| chosen(flags.interval_bits, env.interval_bits, file.interval_bits) is Invalid
            ||| chosen(flags.slow_interval, env.slow_interval, file.slow_interval) is Invalid
            ||| chosen(flags.sudo, env.sudo, file.sudo) is Invalid
            ||| chosen(flags.no_slow, env.no_slow, file.no_slow) is Invalid
            ||| chosen(flags.pid, env.pid, file.pid) is Invalid
            ||| chosen(flags.data_retention, env.data_retention, file.data_retention) is Invalid
            ||| chosen(flags.log_retention, env.log_retention, file.log_retention) is Invalid
            ||| chosen(flags.flush_interval, env.flush_interval, file.flush_interval) is Invalid
            ||| chosen(flags.port, env.port, file.port) is Invalid
            ||| chosen(flags.bind, env.bind, file.bind) is Invalid
        },
{
}

/// Every value that the layers give counts as it is, zero and the empty text among them. A
/// flag comes before the environment and the environment before the file; only a setting that
/// all three leave open has its default.
pub proof fn law_given_values_stand_as_they_are(
    file: Layer,
    env: Layer,
    flags: ConfigOverrides,
    result: Result<Config, CoreError>,
)
    requires
        resolves_to(file, env, flags, result),
        result is Ok,
    ensures
        flags.interval_bits is Some ==> result->Ok_0.interval_bits == flags.interval_bits->0,
        flags.interval_bits is None && env.interval_bits is Given
            ==> result->Ok_0.interval_bits == env.interval_bits->Given_0,
        flags.interval_bits is None && env.interval_bits is Absent && file.interval_bits is Given
            ==> result->Ok_0.interval_bits
            == file.interval_bits->Given_0,
        flags.interval_bits is None && env.interval_bits is Absent && file.interval_bits is Absent
            ==> result->Ok_0.interval_bits == 0x3FF0_0000_0000_0000,
        flags.slow_interval is Some ==> result->Ok_0.slow_interval == flags.slow_interval->0,
        flags.slow_interval is None && env.slow_interval is Given
            ==> result->Ok_0.slow_interval == env.slow_interval->Given_0,
        flags.slow_interval is None && env.slow_interval is Absent && file.slow_interval is Given
            ==> result->Ok_0.slow_interval
            == file.slow_interval->Given_0,
        flags.slow_interval is None && env.slow_interval is Absent && file.slow_interval is Absent
            ==> result->Ok_0.slow_interval == 60,
        flags.sudo is Some ==> result->Ok_0.sudo == flags.sudo->0,
        flags.sudo is None && env.sudo is Given ==> result->Ok_0.sudo == env.sudo->Given_0,
        flags.sudo is None && env.sudo is Absent && file.sudo is Given ==> result->Ok_0.sudo
            == file.sudo->Given_0,
        flags.sudo is None && env.sudo is Absent && file.sudo is Absent ==> !result->Ok_0.sudo,
        flags.no_slow is Some ==> result->Ok_0.no_slow == flags.no_slow->0,
        flags.no_slow is None && env.no_slow is Given
            ==> result->Ok_0.no_slow == env.no_slow->Given_0,
        flags.no_slow is None && env.no_slow is Absent && file.no_slow is Given
            ==> result->Ok_0.no_slow
            == file.no_slow->Given_0,
        flags.no_slow is None && env.no_slow is Absent && file.no_slow is Absent
            ==> !result->Ok_0.no_slow,
        flags.pid is Some ==> result->Ok_0.pid == Some(flags.pid->0),
        flags.pid is None && env.pid is Given ==> result->Ok_0.pid == Some(env.pid->Given_0),
        flags.pid is None && env.pid is Absent && file.pid is Given ==> result->Ok_0.pid
            == Some(file.pid->Given_0),
        flags.pid is None && env.pid is Absent && file.pid is Absent ==> result->Ok_0.pid is None,
        flags.data_retention is Some ==> result->Ok_0.data_retention == flags.data_retention->0,
        flags.data_retention is None && env.data_retention is Given
            ==> result->Ok_0.data_retention == env.data_retention->Given_0,
        flags.data_retention is None && env.data_retention is Absent && file.data_retention is Given
            ==> result->Ok_0.data_retention
            == file.data_retention->Given_0,
        flags.data_retention is None && env.data_retention is Absent
            && file.data_retention is Absent ==> result->Ok_0.data_retention == 7,
        flags.log_retention is Some ==> result->Ok_0.log_retention == flags.log_retention->0,
        flags.log_retention is None && env.log_retention is Given
            ==> result->Ok_0.log_retention == env.log_retention->Given_0,
        flags.log_retention is None && env.log_retention is Absent && file.log_retention is Given
            ==> result->Ok_0.log_retention
            == file.log_retention->Given_0,
        flags.log_retention is None && env.log_retention is Absent && file.log_retention is Absent
            ==> result->Ok_0.log_retention == 7,
        flags.flush_interval is Some ==> result->Ok_0.flush_interval == flags.flush_interval->0,
        flags.flush_interval is None && env.flush_interval is Given
            ==> result->Ok_0.flush_interval == env.flush_interval->Given_0,
        flags.flush_interval is None && env.flush_interval is Absent && file.flush_interval is Given
            ==> result->Ok_0.flush_interval
            == file.flush_interval->Given_0,
        flags.flush_interval is None && env.flush_interval is Absent
            && file.flush_interval is Absent ==> result->Ok_0.flush_interval == 30,
        flags.port is Some ==> result->Ok_0.port == flags.port->0,
        flags.port is None && env.port is Given ==> result->Ok_0.port == env.port->Given_0,
        flags.port is None && env.port is Absent && file.port is Given ==> result->Ok_0.port
            == file.port->Given_0,
        flags.port is None && env.port is Absent && file.port is Absent
            ==> result->Ok_0.port == 9090,
        flags.bind is Some ==> result->Ok_0.bind == flags.bind->0,
        flags.bind is None && env.bind is Given ==> result->Ok_0.bind == env.bind->Given_0,
        flags.bind is None && env.bind is Absent && file.bind is Given ==> result->Ok_0.bind
            == file.bind->Given_0,
        flags.bind is None && env.bind is Absent && file.bind is Absent
            ==> result->Ok_0.bind@ == "127.0.0.1"@,
{
}

/// The configuration is loaded where every setting has a flag, a valid variable, or no
/// variable and nothing invalid in the file. What a higher layer replaces does no harm.
pub proof fn law_valid_layers_are_loaded(
    file: Layer,
    env: Layer,
    flags: ConfigOverrides,
    result: Result<Config, CoreError>,
)
    requires
        resolves_to(file, env, flags, result),
        flags.interval_bits is Some || env.interval_bits is Given || (env.interval_bits is Absent
            && !(file.interval_bits is Invalid)),
        flags.slow_interval is Some || env.slow_interval is Given || (env.slow_interval is Absent
            && !(file.slow_interval is Invalid)),
        flags.sudo is Some || env.sudo is Given || (env.sudo is Absent && !(file.sudo is Invalid)),
        flags.no_slow is Some || env.no_slow is Given || (env.no_slow is Absent
            && !(file.no_slow is Invalid)),
        flags.pid is Some || env.pid is Given || (env.pid is Absent && !(file.pid is Invalid)),
        flags.data_retention is Some || env.data_retention is Given || (env.data_retention is Absent
            && !(file.data_retention is Invalid)),
        flags.log_retention is Some || env.log_retention is Given || (env.log_retention is Absent
            && !(file.log_retention is Invalid)),
        flags.flush_interval is Some || env.flush_interval is Given || (env.flush_interval is Absent
            && !(file.flush_interval is Invalid)),
        flags.port is Some || env.port is Given || (env.port is Absent && !(file.port is Invalid)),
        flags.bind is Some || env.bind is Given || (env.bind is Absent && !(file.bind is Invalid)),
    ensures
        result is Ok,
{
}

/// The error that is reported is that of an invalid value, and of the first one where the
/// settings stand in alphabetical order.
pub proof fn law_first_invalid_value_is_reported(
    file: Layer,
    env: Layer,
    flags: ConfigOverrides,
    result: Result<Config, CoreError>,
    error: figment::Error,
)
    requires
        resolves_to(file, env, flags, result),
    ensures
        ({
            &&& chosen(flags.bind, env.bind, file.bind) == Setting::<String>::Invalid(error)
        }) ==> result == Err::<Config, CoreError>(CoreError::Config(Box::new(error))),
        ({
            &&& chosen(flags.data_retention, env.data_retention, file.data_retention) == Setting::<u64>::Invalid(error)
            &&& !(chosen(flags.bind, env.bind, file.bind) is Invalid)
        }) ==> result == Err::<Config, CoreError>(CoreError::Config(Box::new(error))),
        ({
            &&& chosen(flags.flush_interval, env.flush_interval, file.flush_interval) == Setting::<u64>::Invalid(error)
            &&& !(chosen(flags.bind, env.bind, file.bind) is Invalid)
            &&& !(chosen(flags.data_retention, env.data_retention, file.data_retention) is Invalid)
        }) ==> result == Err::<Config, CoreError>(CoreError::Config(Box::new(error))),
        ({
            &&& chosen(flags.interval_bits, env.interval_bits, file.interval_bits) == Setting::<u64>::Invalid(error)
            &&& !(chosen(flags.bind, env.bind, file.bind) is Invalid)
            &&& !(chosen(flags.data_retention, env.data_retention, file.data_retention) is Invalid)
            &&& !(chosen(flags.flush_interval, env.flush_interval, file.flush_interval) is Invalid)
        }) ==> result == Err::<Config, CoreError>(CoreError::Config(Box::new(error))),
        ({
            &&& chosen(flags.log_retention, env.log_retention, file.log_retention) == Setting::<u64>::Invalid(error)
            &&& !(chosen(flags.bind, env.bind, file.bind) is Invalid)
            &&& !(chosen(flags.data_retention, env.data_retention, file.data_retention) is Invalid)
            &&& !(chosen(flags.flush_interval, env.flush_interval, file.flush_interval) is Invalid)
            &&& !(chosen(flags.interval_bits, env.interval_bits, file.interval_bits) is Invalid)
        }) ==> result == Err::<Config, CoreError>(CoreError::Config(Box::new(error))),
        ({
            &&& chosen(flags.no_slow, env.no_slow, file.no_slow) == Setting::<bool>::Invalid(error)
            &&& !(chosen(flags.bind, env.bind, file.bind) is Invalid)
            &&& !(chosen(flags.data_retention, env.data_retention, file.data_retention) is Invalid)
            &&& !(chosen(flags.flush_interval, env.flush_interval, file.flush_interval) is Invalid)
            &&& !(chosen(flags.interval_bits, env.interval_bits, file.interval_bits) is Invalid)
            &&& !(chosen(flags.log_retention, env.log_retention, file.log_retention) is Invalid)
        }) ==> result == Err::<Config, CoreError>(CoreError::Config(Box::new(error))),
        ({
            &&& chosen(flags.pid, env.pid, file.pid) == Setting::<u32>::Invalid(error)
            &&& !(chosen(flags.bind, env.bind, file.bind) is Invalid)
            &&& !(chosen(flags.data_retention, env.data_retention, file.data_retention) is Invalid)
            &&& !(chosen(flags.flush_interval, env.flush_interval, file.flush_interval) is Invalid)
            &&& !(chosen(flags.interval_bits, env.interval_bits, file.interval_bits) is Invalid)
            &&& !(chosen(flags.log_retention, env.log_retention, file.log_retention) is Invalid)
            &&& !(chosen(flags.no_slow, env.no_slow, file.no_slow) is Invalid)
        }) ==> result == Err::<Config, CoreError>(CoreError::Config(Box::new(error))),
        ({
            &&& chosen(flags.port, env.port, file.port) == Setting::<u16>::Invalid(error)
            &&& !(chosen(flags.bind, env.bind, file.bind) is Invalid)
            &&& !(chosen(flags.data_retention, env.data_retention, file.data_retention) is Invalid)
            &&& !(chosen(flags.flush_interval, env.flush_interval, file.flush_interval) is Invalid)
            &&& !(chosen(flags.interval_bits, env.interval_bits, file.interval_bits) is Invalid)
            &&& !(chosen(flags.log_retention, env.log_retention, file.log_retention) is Invalid)
            &&& !(chosen(flags.no_slow, env.no_slow, file.no_slow) is Invalid)
            &&& !(chosen(flags.pid, env.pid, file.pid) is Invalid)
        }) ==> result == Err::<Config, CoreError>(CoreError::Config(Box::new(error))),
        ({
            &&& chosen(flags.slow_interval, env.slow_interval, file.slow_interval) == Setting::<u64>::Invalid(error)
            &&& !(chosen(flags.bind, env.bind, file.bind) is Invalid)
            &&& !(chosen(flags.data_retention, env.data_retention, file.data_retention) is Invalid)
            &&& !(chosen(flags.flush_interval, env.flush_interval, file.flush_interval) is Invalid)
            &&& !(chosen(flags.interval_bits, env.interval_bits, file.interval_bits) is Invalid)
            &&& !(chosen(flags.log_retention, env.log_retention, file.log_retention) is Invalid)
            &&& !(chosen(flags.no_slow, env.no_slow, file.no_slow) is Invalid)
            &&& !(chosen(flags.pid, env.pid, file.pid) is Invalid)
            &&& !(chosen(flags.port, env.port, file.port) is Invalid)
        }) ==> result == Err::<Config, CoreError>(CoreError::Config(Box::new(error))),
        ({
            &&& chosen(flags.sudo, env.sudo, file.sudo) == Setting::<bool>::Invalid(error)
            &&& !(chosen(flags.bind, env.bind, file.bind) is Invalid)
            &&& !(chosen(flags.data_retention, env.data_retention, file.data_retention) is Invalid)
            &&& !(chosen(flags.flush_interval, env.flush_interval, file.flush_interval) is Invalid)
            &&& !(chosen(flags.interval_bits, env.interval_bits, file.interval_bits) is Invalid)
            &&& !(chosen(flags.log_retention, env.log_retention, file.log_retention) is Invalid)
            &&& !(chosen(flags.no_slow, env.no_slow, file.no_slow) is Invalid)
            &&& !(chosen(flags.pid, env.pid, file.pid) is Invalid)
            &&& !(chosen(flags.port, env.port, file.port) is Invalid)
            &&& !(chosen(flags.slow_interval, env.slow_interval, file.slow_interval) is Invalid)
        }) ==> result == Err::<Config, CoreError>(CoreError::Config(Box::new(error))),
{
}

} // verus!
