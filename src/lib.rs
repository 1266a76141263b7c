//! Host telemetry collector.
//!
//! Every cycle the collector samples running containers and host processes,
//! turns what it read into flat records of string fields, and keeps the
//! state database in step with them, one namespace per kind of record.
//!
//! - `units`: sizes such as `1.5GiB` as byte counts.
//! - `table`, `jsonl`, `docker`: container statistics, in their table and
//!   JSON-lines forms, as records.
//! - `sampler`: the busiest processes of a process-table snapshot as records.
//! - `fips`: the FIPS status record.
//! - `sync`, `collector`: the writes that replace a namespace's records, and
//!   what they do to the store.
//! - `config`, `dockerd`: settings and process lookup of the metrics exporter.
//! - `record`, `text`, `clock`: shared types and helpers.

pub mod text;
pub mod units;
pub mod record;
pub mod docker;
pub mod table;
pub mod jsonl;
pub mod sampler;
pub mod clock;
pub mod sync;
pub mod collector;
pub mod fips;
pub mod config;
pub mod dockerd;
