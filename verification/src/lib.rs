//! Statistics collection for the query optimizer: equi-depth histograms,
//! count-min and distinct-value sketches, column and row samplers, and the
//! builders that feed them from one ordered pass over scanned values.
//!
//! Every function states its behaviour over a mathematical view of its
//! data; the few calls into other crates are isolated in `hashing` and
//! `random`.

pub mod analyze;
pub mod cmsketch;
pub mod column_sample;
pub mod column_stats;
pub mod encoding;
pub mod error;
pub mod fmsketch;
pub mod hashing;
pub mod histogram;
pub mod index_stats;
pub mod proto;
pub mod random;
pub mod request;
pub mod reservoir;
pub mod row_base;
pub mod row_collector;
pub mod row_sample;
pub mod row_stats;
pub mod top_n;
