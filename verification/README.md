# flowt

A terminal workflow automation engine. Workflows are YAML files of nodes (HTTP requests,
shell commands, log messages) with dependencies, `when` conditions and `${...}` templates;
they run on demand or on cron schedules, and a dashboard shows their runs.

The decisions are a Verus-verified library (`src/`):

- `engine/`: node order (`order.rs`), conditions (`expression.rs`), templates
  (`template.rs`), what each node does and how a run ends (`run.rs`), the shell and curl
  commands and how their results are read (`commands.rs`), retries and timeouts (`retry.rs`).
- `schedule.rs`: when a cron trigger is due, and firing each scheduled minute once.
- `clock.rs`: the system clock, and instants written as UTC text.
- `config.rs`, `json.rs`, `text.rs`, `sort.rs`: the data and the text routines under it.
- `storage.rs`, `paths.rs`: store ordering, cache keys and expiry, file locations.
- `tui.rs`, `view.rs`, `describe.rs`: the dashboard's state machine and everything it shows,
  as lines of styled pieces.

`app/` is the program around it: the command line, YAML and the store, running processes,
the scheduler loop and drawing the terminal.
