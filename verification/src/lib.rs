//! A local cache of upstream issues and per-repository star counts, with a
//! paginated, star-filtered read path.
//!
//! The store keeps two tables, enforces their uniqueness rules and answers
//! newest-first page queries. Every executable function carries a contract
//! over the tables' mathematical model.

pub mod clock;
pub mod db;
pub mod github_api;
pub mod guarantees;
pub mod models;
pub mod scheduler;
pub mod server;
pub mod text_order;
