# codex_tui

The decisions behind the terminal UI's workflow, loop and profile panels,
written in Verus and verified: what each popup shows and which event each
of its items sends, how workflow files are checked against each other, in
which order a workflow's jobs run and when a failed step is retried, how
background runs are queued, labelled and finished, how loop timers are
created, edited, switched and run, which loops a turn of the main thread
runs and what their replies add to it, and which profile a failed turn
retries with.

## Layout

- `src/` — the verified library. Public functions state their results in
  their `ensures`, as far as the values they are handed allow (what the
  loop settings and the runtime compute comes in as arguments); the laws
  that relate several functions are public proof functions (`lemma_*`).
- `tests/` — tests that run the library, with the outside crates linked.
- `app/` — the parts that touch the file system or run outside work:
  reading and writing workflow files (the registry, and a job's steps in
  the job editor, are read through serde; the editor's rewrites of a file's
  text are the library's), driving a
  workflow run against a runtime, and running a step's shell command.

The library calls three outside crates: `humantime`, to parse step
timeouts and to show a duration, `uuid`, for the id of a one-shot loop, and
`serde_yaml`, to parse and write the text of a workflow file that the job
editor changes. Each call stands behind a small trusted function whose
contract says what the crate does.
