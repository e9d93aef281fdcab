# hirsel

The core of an agent orchestrator, as a Verus-verified library: the state of
a run (its status machine, task tree, workers, evals, settings, journal of
messages, reads, history and events), the spec-flow board of islands, rows
and wires, the shepherd's chat store (messages, the durable turn queue and
efforts with one focus per project), the shepherd's tools (argument reading,
dispatch and catalogue), worker snapshots, service-worker start-up and the
web helpers around them.

## Layout

- `src/` — the verified library. Every executable function has a contract
  over a mathematical model (`View` of each record type, spec functions over
  `Seq`, `Map`, `Multiset`); the public `lemma_*` proof functions state the
  laws that tie operations together (what a read gives back of a write, what
  a claim and an unclaim undo, the status machine, the order of the turn
  queue, that every tool a call can name is offered).
  - `text` — strings as character sequences: trimming, splitting, joining,
    decimal forms, the text order.
  - `state_types`, `run_state` — the run's record types and their stored
    names.
  - `task_board`, `run_workers`, `run_journal`, `run_settings`,
    `run_record`, `run_columns`, `run_load` — the run state and its
    operations, and the check a stored state passes before use.
  - `run_tasks` — the run's work and eval tasks: adding tasks alone or in
    batches under the depth rule, the claim order (evals ready for
    evaluation first), the ordered reasons a claim is refused, eval pass and
    fail with repair tasks, completion up the task tree, deletion of a
    subtree, and worker updates and counts.
  - `specflow` — the spec-flow board.
  - `chat_store`, `shepherd` — the shepherd's chat store and the decisions
    of its turns and project syncs.
  - `tool_args`, `tool_dispatch`, `tool_catalog`, `read_window` — the
    shepherd's tools.
  - `snapshot`, `service_worker`, `worker_routes`, `eval_routes`, `web` —
    snapshots, service workers and the HTTP-facing helpers.
- `tests/` — tests of the library on concrete values.
- `app/` — what cannot be verified: SQLite storage, the clock, file-system
  checks, JSON forms with serde, and the conversion of tool-call JSON.

Verify with Verus on `src/lib.rs`; the outside crates are `serde_json` and
`similar` in the library, and `rusqlite`, `chrono`, `uuid` and `serde` in
`app/`.
