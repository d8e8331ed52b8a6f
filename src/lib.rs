//! Time tracking over task groups, tasks and work sessions: a verified
//! session lifecycle (start, pause, resume, stop) with a single active
//! session, and statistics aggregated over a time range.
pub mod clock;
pub mod database;
pub mod models;
pub mod order;
pub mod statistics;
pub mod laws;
