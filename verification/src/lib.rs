//! The logic of a daemon that records metrics of every process on a machine and serves
//! them on a web dashboard.
//!
//! Each tick the daemon reads the process table and makes a record of every process
//! ([`process`], [`tree`], [`targets`]); now and then it also runs `lsof` to learn the
//! working directory and the number of open files of each ([`lsof`]). [`collect`] decides
//! when the records are written to a data file, [`filenames`] names it, and [`trace`] states
//! what holds over many ticks. [`columns`] lays the records of a file out, and [`retention`] finds the files
//! that are too old. [`config`] resolves the configuration from the layers that
//! [`settings`] reads. [`web`] holds the routes of the dashboard and the queries behind
//! them.
//!
//! The program around the library does the input and output: it reads the process table,
//! the clocks and the environment, runs commands, writes files and serves requests.
//! Floating-point numbers pass through the library as bit patterns.

use vstd::prelude::*;

pub mod clock;
pub mod collect;
pub mod columns;
pub mod config;
pub mod error;
pub mod filenames;
pub mod logfile;
pub mod lsof;
pub mod paths;
pub mod process;
pub mod retention;
pub mod settings;
pub mod targets;
pub mod text;
pub mod trace;
pub mod tree;
pub mod web;

pub use crate::collect::CollectConfig;
pub use crate::collect::Collector;
pub use crate::config::Config;
pub use crate::config::ConfigOverrides;
pub use crate::error::CoreError;
pub use crate::paths::default_dir;
pub use crate::paths::resolve_dir;

verus! {

/// The version of the crate, for `--version` and the health replies.
pub const VERSION: &'static str = "0.1.0";

} // verus!
