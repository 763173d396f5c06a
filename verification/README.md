# designkit

A collection of small, verified Rust building blocks, written in Verus:

- `src/` is the library. Each module holds one piece of logic with its
  specification: text helpers (`text`, `fields`, `pattern`), form validation
  (`validation`, `validators`), log pipelines (`log_pipeline`, `log_stream`),
  image filter chains (`image`, `image_chain`), task scheduling and reporting
  (`taskgraph`, `scheduler`, `task_report`), notifications (`notify`,
  `notify_basic`), report generation (`report`), table and data-frame tools
  (`table_ops`, `table_cli`, `dtool`, `dataframe`, `rows`), records read
  from JSON and YAML documents (`docs`), CLI errors
  (`cli_error`), an entity–component store (`ecs`, `generational`), TCP
  connection states (`tcp`, `tcp_states`), package workspaces (`workspace`,
  `pmtool`), deployment configuration (`deployr`) and a task-tracker client's
  request building (`taskr`).
- `tests/` runs the library on concrete inputs.
- `app/` holds the programs around the library: argument parsing, file,
  network and terminal I/O, threads and async runtimes, serde copies of the
  library's types, and the parts that compute in floating point.

Traits that users implement (validation rules, log sources, processors and
destinations, image filters, notification channels) carry a spec function
saying what an implementation may answer; the library's own implementations
state it exactly, and the functions that call through these traits are
specified over it.
