//! Conversion, merging, deduplication, sorting, filtering and statistics
//! for line-oriented chat logs.

pub mod ageset;
pub mod calendar;
pub mod chain;
pub mod context;
pub mod convert;
pub mod dedup;
pub mod error;
pub mod event;
pub mod format;
pub mod lazy;
pub mod merge;
pub mod parse;
pub mod seen;
pub mod sort;
pub mod stats;
pub mod stream;
pub mod text;
