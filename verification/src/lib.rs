//! Generates the missing SELinux `file_contexts` entries for an
//! extracted partition tree: paths are escaped, classified against
//! fixed partition- and segment-based rules, checked against the
//! entries a contexts file already holds, and the still-missing lines
//! are produced in a chunked, order-preserving pipeline.

pub mod classify;
pub mod config;
pub mod contexts;
pub mod idempotence;
pub mod processor;
pub mod progress;
pub mod regex_utils;
pub mod strutil;
