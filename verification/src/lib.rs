//! Core engine of a desktop network/system monitor: a packet
//! classification pipeline, a bounded-history metrics sampler, a
//! threshold-based alert evaluator, a structured packet filter/query
//! engine, and the data model shared with a family of network services.
//!
//! The GUI shell, file I/O and the asynchronous service loops live in a
//! separate, unverified layer; everything here is plain logic over plain
//! values, stated in contracts and proved.

pub mod alert;
pub mod capture;
pub mod export;
pub mod filter;
pub mod geo;
pub mod metrics;
pub mod notifications;
pub mod packet_stats;
pub mod query;
pub mod remote;
pub mod ring;
pub mod text;
