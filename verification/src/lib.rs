//! Verified coordination core for a router that sits in front of a fleet of
//! image-generation backends.
//!
//! The library covers the router's shared state and the rules that mutate it:
//! the node fleet and its picker, the content-addressed download cache index
//! with deduplicated fetches and size-bounded eviction, the bounded workflow
//! record, the dispatcher step, the health-probe bookkeeping, the task
//! executor's message state machine, and the JSON record persisted for the
//! cache index. All I/O (HTTP, WebSockets, the file system) lives outside the
//! library and hands it plain values.

pub mod cluster;
pub mod config;
pub mod dispatch;
pub mod download;
pub mod health;
pub mod kvmap;
pub mod manage;
pub mod messages;
pub mod payload;
pub mod persist;
pub mod record;
pub mod task;
pub mod text;

mod foreign;
