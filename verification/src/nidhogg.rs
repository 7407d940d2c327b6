//! The project nidhogg: its server, its commands and their verification.

pub mod answers;
pub mod bench_api;
pub mod bench_tiles;
pub mod client;
pub mod commands;
pub mod dispatch;
pub mod query;
pub mod server;
pub mod verify_batch;
pub mod verify_geocode;
pub mod verify_readonly;
