//! Aggregation of browsing-history records from several personal devices
//! into per-provider canonical stores, with manual tags kept consistent
//! across devices by a last-write-wins merge register.
//!
//! The crate is organised around a few cores:
//! - [`time`]: the canonical timestamp every cross-browser and cross-node
//!   comparison is made in;
//! - [`browser`]: the browser families, their native timestamp codecs and
//!   the row-mining logic;
//! - [`url`]: the canonical visit record and the normalized query filter;
//! - [`url::tag`]: the conflict-resolution register for manual tags;
//! - [`db`]: an in-memory canonical store with the dedup and watermark
//!   rules of the durable schema;
//! - [`sync`]: the provider-by-provider incremental transfer between two
//!   stores and the two-way tag merge.

pub mod browser;
pub mod db;
pub mod errors;
pub mod node;
pub mod resp;
pub mod strutil;
pub mod sync;
pub mod time;
pub mod url;
