//! A verified quote store: quotations with like counters, per-caller like
//! deduplication, case-insensitive search, pagination, and time-windowed
//! rankings, all held against a mathematical model of the two collections
//! (quotes and likes).

pub mod config;
pub mod handlers;
pub mod laws;
pub mod models;
pub mod repository;
mod sys;
pub mod text;
