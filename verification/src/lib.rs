//! Verified core of the hirsel orchestrator: the state of a run (its tasks,
//! workers, evals, chat threads, history and settings), the per-run record
//! with its status machine and scribe queue, the spec board, the shepherd's
//! chat store and turn queue, snapshot handles, and the decision helpers
//! that the HTTP and runtime layers build on.

pub mod text;
pub mod state_types;
pub mod run_state;
pub mod task_board;
pub mod run_workers;
pub mod run_journal;
pub mod run_settings;
pub mod specflow;
pub mod snapshot;
pub mod worker_routes;
pub mod eval_routes;
pub mod service_worker;
pub mod shepherd;
pub mod read_window;
pub mod tool_args;
pub mod tool_dispatch;
pub mod tool_catalog;
pub mod web;
pub mod run_record;
pub mod run_columns;
pub mod chat_store;
pub mod run_load;
pub mod run_tasks;
