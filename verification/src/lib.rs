//! Verified core of the arctern ZFS replication daemon.

pub mod text;
pub mod names;
pub mod grid;
pub mod retention;
pub mod pattern;
pub mod schema;
pub mod prune;
pub mod protocol;
pub mod plan;
pub mod send_args;
pub mod filter;
pub mod config;
pub mod bandwidth;
pub mod defaults;
pub mod holds;
pub mod schedule;
pub mod peer;
pub mod api;
pub mod requests;
pub mod jobs;
pub mod http_error;
pub mod inventory;
pub mod step;
pub mod auth;
pub mod token;
pub mod sse;
pub mod paths;
pub mod shutdown;
