# mono

A task runner for monorepos, written in Rust and verified with Verus. A project
declares its tasks, matrices and pipelines in a manifest; `mono` plans them in
dependency order, runs them on a bounded number of workers, caches what they
produce, streams their output, and looks after changelogs and release
artifacts.

## Layout

- `src/` is the library. Every function in it is verified against its contract;
  the functions named `law_…` state what holds across functions.
  - `project/`, `workspace/`, `config`, `discovery`: manifests, validation, task
    graphs and plans
  - `scheduler/`: which task may run when, and how a run ends
  - `runner/`, `stream_output`, `output`, `tui`, `events`: one task's process,
    its captured output, and how a run is shown
  - `cache/`: glob patterns, cache keys and stored entries
  - `changelog/`, `release`, `commands/`: changelogs, release manifests and the
    subcommands
  - `text`, `map`, `path`, `time`, `io`, `platform`, `atomic_file`: shared
    vocabulary
- `app/` is the program: argument parsing, files, processes, threads and the
  terminal. It performs the work that the library's state machines ask for and
  hands the results back.
- `tests/` runs the library on concrete values.

## What is taken on trust

Three calls out of the library are specified and not proved: `sha2`'s SHA-256
digest, and the standard library's `String::push` and
`String::from_utf8_lossy`.
