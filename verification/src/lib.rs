//! Decision logic for persistent, app-managed offline audio downloads.

pub mod text;
pub mod naming;
pub mod paths;
pub mod records;
pub mod transfer;
pub mod queue;
pub mod settings;
pub mod fetch;
pub mod collection;
pub mod migration;
pub mod session;
