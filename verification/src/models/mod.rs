//! The data that the dashboard shows.

pub mod execution_plan;
pub mod server;
