//! The task manager: tasks and users, their store, and the decisions of
//! its commands.
pub mod model;
pub mod storage;
pub mod commands;
