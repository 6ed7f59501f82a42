//! Verified core of a message broker benchmark.
//!
//! A producer sends messages of several sizes at a target throughput. A consumer receives them and
//! finds out what arrived, what was lost, and how long it took. This crate holds what both ends
//! compute; connections, files and floating-point output are the business of the program around it.

pub mod config;
pub mod text;

pub mod allocation;
pub mod ratio;
pub mod streams;
pub mod target;

pub mod pacing;
pub mod payload;
pub mod plan;

pub mod clock;
pub mod message;

pub mod by_id;
pub mod latency;
pub mod loss;
pub mod session;
pub mod stats;
pub mod table;

pub mod csv;
pub mod report;
pub mod report_lines;
pub mod summary;
