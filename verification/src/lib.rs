//! Core logic of a concurrent archive-ingestion pipeline.
//!
//! A run downloads many remote archives, each holding one embedded
//! database file beside auxiliary documents.  This crate holds the
//! verified decision logic of that run: classifying and routing archive
//! entries into an extension-partitioned output tree, detecting the one
//! database file per archive, planning the schema-then-data conversion
//! transaction, bounding how many archives are in flight at once, and
//! folding per-step failures into a run-level result.  All I/O (HTTP,
//! archive decoding, subprocesses, the relational store) lives outside
//! this crate and is driven by these decisions.

pub mod convert;
pub mod errors;
pub mod output;
pub mod paths;
pub mod plan;
pub mod router;
pub mod scheduler;
