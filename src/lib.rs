//! Decoder and resolver for HPROF 1.0.2 heap dumps.
//!
//! `parser` turns the bytes of a dump into records and sub-records;
//! `analzyer` cross-references them into string, class, frame and instance
//! tables.

pub mod analzyer;
pub mod parser;
