//! Tasks that report progress: the handle of one task, and the order of the tasks of a group.
pub mod commands;
pub mod handle;
