//! The store of what the master knows of its agents.

pub mod models;
