//! Tracking of scheduled, live and ended broadcasts for a fixed set of
//! channels: the tables that hold them, the jobs that reconcile the tables
//! with what upstream reports, and the cache of rendered pages.

pub mod api;
pub mod colors;
pub mod config;
pub mod pages;
pub mod scheduler;
pub mod sqlite;
pub mod table;
pub mod text;
pub mod time;
pub mod utils;
pub mod youtube;
