# leo_lsp_scheduler

The analysis scheduler of a language server, written and proved in Verus.

The main thread hands commands to a background worker over a channel of capacity one. The worker
drains the channel before it works, keeps at most one waiting job per key and at most one package
snapshot per URI, gives up the oldest job when too many wait (16 package jobs, 64 document view
jobs) and announces that, runs the newest package job or, failing that, the newest view job, and
answers each job that it runs with one event. A job whose document has moved on is cancelled,
before the work or after it. A package job that has to go for a newer snapshot of its document
under another key is announced as cancelled. A job that a newer one replaces under its own key,
and one that waits when the worker stops, gets no event.

- `src/` is the library. `model.rs` gives the meaning of commands as functions on maps,
  `jobs.rs` that of running a job, and `laws.rs` states and proves what follows.
- `src/scheduler.rs` makes the crossbeam channels, and `src/channel.rs` sends and receives over
  them. Contracts there speak of the calls themselves: an outbox cannot record a message that it
  did not pass to `send`, nor an inbox one that did not come from `recv` or `try_recv`.
- `src/tools.rs` holds the functions that do the outside work, and records each call of them.
- `app/` puts the worker on a thread, contains the panics of jobs, and converts URIs.
- `tests/` runs the library on concrete values.
