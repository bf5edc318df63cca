//! A client library for 3DS title databases.
//!
//! Title data comes from two independent sources, each with its own module:
//!
//! - `json`: a set of JSON files partitioned by region
//! - `xml`: a single XML document
//!
//! Both sources decode into a per-source `Release` record type. Any list of
//! releases can be indexed by title ID through the `index` module. Failures
//! from either the transport or the decoding stage are normalized into the
//! `error` module's `Error` type.

pub mod error;
pub mod index;
pub mod json;
pub mod scan;
pub mod xml;
