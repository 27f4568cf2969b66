//! Structured extraction of metadata from the console report of the Dolby
//! Vision metafier tool.
//!
//! The heart of the crate is [`analyzer::analyze_logs`]: a pure, total
//! function that scans the tool's free-form diagnostic text line by line and
//! collects a typed summary (a closed set of named metadata fields plus two
//! ordered trim-count lists). Every recognizer is specified over `Seq<char>`
//! and the executable scanner is proved to return exactly what the
//! specification describes.

pub mod analyzer;
pub mod chars;
pub mod command;
pub mod numfmt;
pub mod fields;
pub mod patterns;
