//! Pilum: a personal task tracker.
//!
//! The crate holds the task model, an ordered task store, the numbering
//! allocator and the command operations that compose them. Every operation
//! returns the lines it reports instead of printing them, so that the caller
//! decides where they go.
pub mod cli;
pub mod command;
pub mod database;
pub mod store;
pub mod task;
pub mod task_list;
pub mod text;
pub mod utilities;
