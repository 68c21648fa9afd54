//! Packet-length and inter-arrival-time statistics for one direction of a
//! link, gathered from a rotating sequence of capture files and restricted to
//! a time window.
//!
//! The crate holds the decisions and the arithmetic: the address codec, the
//! time window, the catalog of capture files, the choice of the files to read
//! and the aggregation itself. Opening files and decoding capture records is
//! left to the caller, who feeds the records in.

pub mod aggregator;
pub mod calendar;
pub mod catalog;
pub mod driver;
pub mod error;
pub mod frequency;
pub mod mac;
pub mod order;
pub mod report;
pub mod selector;
pub mod text;
pub mod window;
