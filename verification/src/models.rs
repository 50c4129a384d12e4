//! The records that the watcher logs.
pub mod fs_change_log_model;
