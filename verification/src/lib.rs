//! Core of an incremental, demand-driven task execution engine.
//!
//! Producers register memoizable computations ("tasks") whose outputs are
//! addressed content cells; consumers read those cells and the engine tracks
//! dependencies so that invalidating any input re-executes exactly the
//! transitively affected tasks, while unchanged tasks reuse cached outputs.

pub mod cell_mappings;
pub mod event;
pub mod id;
pub mod manager;
pub mod node_source;
pub mod raw_vc;
pub mod task_input;
pub mod update_server;
