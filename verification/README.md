# procmon

The verified core of `macos-proc-monitor`, a daemon that records metrics of every process
each second, writes them to Parquet files by the hour, and serves them on a web dashboard.

`src/` is the library, written and proved in Verus:

| Module | What it holds |
|---|---|
| `collect`, `filenames`, `trace`, `targets` | the collection loop: what a tick records, when it is written out and under which name, and what holds over many ticks |
| `process`, `tree`, `lsof` | processes, their users and families, and what `lsof` says of them |
| `columns` | the schema of the data files and the columns of a batch of records |
| `retention`, `logfile`, `clock` | old files, daily files, and the labels of hours and days |
| `config`, `settings`, `paths`, `error` | the configuration and the directories |
| `web` | routes, queries and fixed replies of the dashboard |
| `text` | numerals and lines |

`app/` is the program around it: it reads the process table, the clocks, the environment
and the configuration file, runs `lsof`, writes files and serves requests. `tests/` runs the
library.

Floating-point numbers (the CPU usage, the sampling interval) pass through the library as
bit patterns; the time of a tick is a number of nanoseconds.

## What a row holds

One process at one tick: `ts`, `pid`, `ppid`, `name`, `user_name`, `status`, `cpu_percent`,
`mem_rss`, `mem_vms`, `num_threads`, `create_time`, `cwd`, `num_fds`, `children`. The
working directory `cwd` and the number of open files `num_fds` are known on slow ticks
only; `children` is a JSON array of the ids of the direct children.

## What is proved

- No record is lost, doubled or reordered between the ticks and the data files that are
  handed out to be written. None of these is empty, each holds the records of one hour, no
  two of a run get the same name, and a run takes no name that it finds in use, as long as
  the 64-bit file numbers last.
- Slow ticks are at least the slow interval apart.
- With a process to watch, exactly it and its descendants are recorded, each once.
- A flag wins over the environment, the environment over the file, the file over the
  default.
- A file is removed only if it has the right extension and is older than the retention.
- A user name cannot leave the SQL literal that it stands in, and the filter for system
  users finds exactly the names that begin with an underscore.
